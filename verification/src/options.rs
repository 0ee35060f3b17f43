//! Options of a request, and the shapes in which its replies come back.

use crate::models::{ApiResponseView, WebsocketApiResponse};
use vstd::prelude::*;
use vstd::std_specs::iter::IteratorSpec;

verus! {

/// How a request is sent.
#[derive(Debug, Clone, Copy)]
pub struct WebsocketMessageSendOptions {
    pub with_api_key: bool,
    pub is_signed: bool,
    pub is_session_logon: Option<bool>,
    pub is_session_logout: Option<bool>,
}

impl Default for WebsocketMessageSendOptions {
    fn default() -> (result: Self)
        ensures
            result == (WebsocketMessageSendOptions {
                with_api_key: false,
                is_signed: false,
                is_session_logon: None,
                is_session_logout: None,
            }),
    {
        WebsocketMessageSendOptions {
            with_api_key: false,
            is_signed: false,
            is_session_logon: None,
            is_session_logout: None,
        }
    }
}

impl WebsocketMessageSendOptions {
    /// The request opens a session.
    pub open spec fn logs_on(self) -> bool {
        self.is_session_logon == Some(true)
    }

    /// The request closes a session.
    pub open spec fn logs_out(self) -> bool {
        self.is_session_logout == Some(true)
    }

    /// A request without an API key, a signature or an effect on the session.
    #[must_use]
    pub fn new() -> (result: Self)
        ensures
            result == (WebsocketMessageSendOptions {
                with_api_key: false,
                is_signed: false,
                is_session_logon: None,
                is_session_logout: None,
            }),
    {
        Self::default()
    }

    /// The same request, with the API key.
    #[must_use]
    pub fn with_api_key(self) -> (result: Self)
        ensures
            result == (WebsocketMessageSendOptions { with_api_key: true, ..self }),
    {
        WebsocketMessageSendOptions { with_api_key: true, ..self }
    }

    /// The same request, signed.
    #[must_use]
    pub fn signed(self) -> (result: Self)
        ensures
            result == (WebsocketMessageSendOptions { is_signed: true, ..self }),
    {
        WebsocketMessageSendOptions { is_signed: true, ..self }
    }

    /// The same request, opening a session.
    #[must_use]
    pub fn session_logon(self) -> (result: Self)
        ensures
            result == (WebsocketMessageSendOptions { is_session_logon: Some(true), ..self }),
    {
        WebsocketMessageSendOptions { is_session_logon: Some(true), ..self }
    }

    /// The same request, closing the session.
    #[must_use]
    pub fn session_logout(self) -> (result: Self)
        ensures
            result == (WebsocketMessageSendOptions { is_session_logout: Some(true), ..self }),
    {
        WebsocketMessageSendOptions { is_session_logout: Some(true), ..self }
    }

    /// Whether the request opens a session.
    pub fn opens_session(&self) -> (result: bool)
        ensures
            result == self.logs_on(),
    {
        self.is_session_logon.unwrap_or(false)
    }

    /// Whether the request opens or closes a session, and so goes out on every
    /// connection.
    pub fn concerns_session(&self) -> (result: bool)
        ensures
            result == (self.logs_on() || self.logs_out()),
    {
        self.is_session_logon.unwrap_or(false) || self.is_session_logout.unwrap_or(false)
    }
}

/// The replies to a request: one, or one from each connection that it went out
/// on.
#[derive(Debug)]
pub enum SendWebsocketMessageResult<R> {
    Single(WebsocketApiResponse<R>),
    Multiple(Vec<WebsocketApiResponse<R>>),
}

impl<R> SendWebsocketMessageResult<R> {
    /// The replies in order.
    pub open spec fn replies(self) -> Seq<WebsocketApiResponse<R>> {
        match self {
            SendWebsocketMessageResult::Single(response) => seq![response],
            SendWebsocketMessageResult::Multiple(responses) => responses@,
        }
    }

    /// The replies in order, each as a mathematical value.
    pub open spec fn reply_views(self) -> Seq<ApiResponseView> {
        self.replies().map_values(|response: WebsocketApiResponse<R>| response@)
    }

    /// The replies in order.
    pub fn into_vec(self) -> (result: Vec<WebsocketApiResponse<R>>)
        ensures
            result@ == self.replies(),
    {
        match self {
            SendWebsocketMessageResult::Single(response) => vec![response],
            SendWebsocketMessageResult::Multiple(responses) => responses,
        }
    }
}

impl<R> IntoIterator for SendWebsocketMessageResult<R> {
    type Item = WebsocketApiResponse<R>;

    type IntoIter = std::vec::IntoIter<WebsocketApiResponse<R>>;

    fn into_iter(self) -> (result: std::vec::IntoIter<WebsocketApiResponse<R>>)
        ensures
            result.remaining() == self.replies(),
    {
        self.into_vec().into_iter()
    }
}

} // verus!
