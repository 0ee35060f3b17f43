//! Why a connection failed, and whether it is worth opening again.

use tokio_tungstenite::tungstenite;
use tokio_tungstenite::tungstenite::error::{Error, ProtocolError};
use vstd::prelude::*;

verus! {

/// Why a connection failed.
#[derive(Clone, Copy, Debug, PartialEq, Eq, Structural)]
pub enum WebsocketConnectionFailureReason {
    NetworkInterruption,
    ConnectionReset,
    ServerTemporaryError,
    UnexpectedClose,
    StreamEnded,
    AuthenticationFailure,
    ProtocolViolation,
    ConfigurationError,
    UserInitiatedClose,
    PermanentServerError,
    NormalClose,
}

/// The kinds of input and output errors that are told apart.
#[derive(Clone, Copy, Debug, PartialEq, Eq, Structural)]
pub enum IoFailure {
    ConnectionReset,
    ConnectionAborted,
    TimedOut,
    UnexpectedEof,
    PermissionDenied,
    Other,
}

/// The kinds of transport errors that are told apart.
#[derive(Clone, Copy, Debug, PartialEq, Eq, Structural)]
pub enum TransportFailure {
    ConnectionClosed,
    AlreadyClosed,
    Io,
    ResetWithoutClosingHandshake,
    Protocol,
    Utf8,
    Tls,
    Capacity,
    WriteBufferFull,
    AttackAttempt,
    Url,
    Http,
    HttpFormat,
}

/// A `tungstenite::Error`, carried through as an opaque value.
#[verifier::external_type_specification]
#[verifier::external_body]
pub struct ExTransportError(tungstenite::Error);

/// A `std::io::Error`, carried through as an opaque value.
#[verifier::external_type_specification]
#[verifier::external_body]
pub struct ExIoError(std::io::Error);

/// Which variant of `tungstenite::Error` an error is. A protocol error that is a
/// reset without a closing handshake stands apart from the others.
pub uninterp spec fn transport_failure(error: tungstenite::Error) -> TransportFailure;

/// The input and output error that a `tungstenite::Error` wraps.
pub uninterp spec fn io_cause(error: tungstenite::Error) -> std::io::Error;

/// What `std::io::Error::kind` answers, as far as it is told apart.
pub uninterp spec fn io_failure(error: std::io::Error) -> IoFailure;

/// Tells the variants of `tungstenite::Error` apart, and a reset without a
/// closing handshake from the other protocol errors.
#[verifier::external_body]
fn transport_failure_of(error: &tungstenite::Error) -> (result: TransportFailure)
    ensures
        result == transport_failure(*error),
{
    match error {
        Error::ConnectionClosed => TransportFailure::ConnectionClosed,
        Error::AlreadyClosed => TransportFailure::AlreadyClosed,
        Error::Io(_) => TransportFailure::Io,
        Error::Tls(_) => TransportFailure::Tls,
        Error::Capacity(_) => TransportFailure::Capacity,
        Error::Protocol(ProtocolError::ResetWithoutClosingHandshake) => TransportFailure::ResetWithoutClosingHandshake,
        Error::Protocol(_) => TransportFailure::Protocol,
        Error::WriteBufferFull(_) => TransportFailure::WriteBufferFull,
        Error::Utf8 => TransportFailure::Utf8,
        Error::AttackAttempt => TransportFailure::AttackAttempt,
        Error::Url(_) => TransportFailure::Url,
        Error::Http(_) => TransportFailure::Http,
        Error::HttpFormat(_) => TransportFailure::HttpFormat,
    }
}

/// The `std::io::Error` inside a `tungstenite::Error::Io`, and nothing for the
/// other variants.
#[verifier::external_body]
fn io_cause_of(error: &tungstenite::Error) -> (result: Option<&std::io::Error>)
    ensures
        match result {
            Some(cause) => transport_failure(*error) == TransportFailure::Io && *cause == io_cause(
                *error,
            ),
            None => transport_failure(*error) != TransportFailure::Io,
        },
{
    match error {
        tungstenite::Error::Io(cause) => Some(cause),
        _ => None,
    }
}

/// Calls `std::io::Error::kind` and tells its answers apart.
#[verifier::external_body]
fn io_failure_of(error: &std::io::Error) -> (result: IoFailure)
    ensures
        result == io_failure(*error),
{
    match error.kind() {
        std::io::ErrorKind::ConnectionReset => IoFailure::ConnectionReset,
        std::io::ErrorKind::ConnectionAborted => IoFailure::ConnectionAborted,
        std::io::ErrorKind::TimedOut => IoFailure::TimedOut,
        std::io::ErrorKind::UnexpectedEof => IoFailure::UnexpectedEof,
        std::io::ErrorKind::PermissionDenied => IoFailure::PermissionDenied,
        _ => IoFailure::Other,
    }
}

impl WebsocketConnectionFailureReason {
    /// The failures after which a connection is opened again.
    pub open spec fn recoverable(self) -> bool {
        self == Self::NetworkInterruption || self == Self::ConnectionReset || self
            == Self::ServerTemporaryError || self == Self::UnexpectedClose || self
            == Self::StreamEnded
    }

    /// The reason that a close code stands for.
    pub open spec fn of_close_code(code: u16, user_initiated: bool) -> Self {
        if user_initiated {
            Self::UserInitiatedClose
        } else if code == 1000 {
            Self::NormalClose
        } else if code == 1001 || code == 1011 {
            Self::ServerTemporaryError
        } else if code == 1002 {
            Self::ProtocolViolation
        } else if code == 1008 || 4000 <= code <= 4999 {
            Self::PermanentServerError
        } else if code == 1015 {
            Self::ConfigurationError
        } else {
            Self::UnexpectedClose
        }
    }

    /// The reason that an input or output error stands for.
    pub open spec fn of_io_failure(failure: IoFailure) -> Self {
        match failure {
            IoFailure::ConnectionReset => Self::ConnectionReset,
            IoFailure::ConnectionAborted => Self::ConnectionReset,
            IoFailure::TimedOut => Self::NetworkInterruption,
            IoFailure::UnexpectedEof => Self::StreamEnded,
            IoFailure::PermissionDenied => Self::AuthenticationFailure,
            IoFailure::Other => Self::NetworkInterruption,
        }
    }

    /// The reason that a transport error stands for; `io` is consulted for an
    /// input or output error only.
    pub open spec fn of_transport_failure(failure: TransportFailure, io: IoFailure) -> Self {
        match failure {
            TransportFailure::ConnectionClosed => Self::ConnectionReset,
            TransportFailure::AlreadyClosed => Self::ConnectionReset,
            TransportFailure::Io => Self::of_io_failure(io),
            TransportFailure::ResetWithoutClosingHandshake => Self::UnexpectedClose,
            TransportFailure::Protocol => Self::ProtocolViolation,
            TransportFailure::Utf8 => Self::ProtocolViolation,
            TransportFailure::Tls => Self::ConfigurationError,
            TransportFailure::Capacity => Self::UnexpectedClose,
            TransportFailure::WriteBufferFull => Self::UnexpectedClose,
            TransportFailure::AttackAttempt => Self::UnexpectedClose,
            TransportFailure::Url => Self::UnexpectedClose,
            TransportFailure::Http => Self::UnexpectedClose,
            TransportFailure::HttpFormat => Self::UnexpectedClose,
        }
    }

    /// The reason that a `tungstenite::Error` stands for.
    pub open spec fn of_error(error: tungstenite::Error) -> Self {
        Self::of_transport_failure(transport_failure(error), io_failure(io_cause(error)))
    }

    /// The name of the reason.
    pub open spec fn spelled(self) -> Seq<char> {
        match self {
            Self::NetworkInterruption => "NetworkInterruption"@,
            Self::ConnectionReset => "ConnectionReset"@,
            Self::ServerTemporaryError => "ServerTemporaryError"@,
            Self::UnexpectedClose => "UnexpectedClose"@,
            Self::StreamEnded => "StreamEnded"@,
            Self::AuthenticationFailure => "AuthenticationFailure"@,
            Self::ProtocolViolation => "ProtocolViolation"@,
            Self::ConfigurationError => "ConfigurationError"@,
            Self::UserInitiatedClose => "UserInitiatedClose"@,
            Self::PermanentServerError => "PermanentServerError"@,
            Self::NormalClose => "NormalClose"@,
        }
    }

    /// Whether a connection that failed for this reason is opened again.
    pub fn should_reconnect(&self) -> (result: bool)
        ensures
            result == self.recoverable(),
    {
        match self {
            Self::NetworkInterruption => true,
            Self::ConnectionReset => true,
            Self::ServerTemporaryError => true,
            Self::UnexpectedClose => true,
            Self::StreamEnded => true,
            _ => false,
        }
    }

    /// Classifies the code of a close frame. A close that the user asked for is
    /// that, whatever the code.
    pub fn from_close_code(code: u16, user_initiated: bool) -> (result: Self)
        ensures
            result == Self::of_close_code(code, user_initiated),
    {
        if user_initiated {
            return Self::UserInitiatedClose;
        }
        match code {
            1000 => Self::NormalClose,
            1001 | 1011 => Self::ServerTemporaryError,
            1002 => Self::ProtocolViolation,
            1008 | 4000..=4999 => Self::PermanentServerError,
            1015 => Self::ConfigurationError,
            _ => Self::UnexpectedClose,
        }
    }

    /// Classifies an input or output error.
    pub fn from_io_failure(failure: IoFailure) -> (result: Self)
        ensures
            result == Self::of_io_failure(failure),
    {
        match failure {
            IoFailure::ConnectionReset | IoFailure::ConnectionAborted => Self::ConnectionReset,
            IoFailure::TimedOut | IoFailure::Other => Self::NetworkInterruption,
            IoFailure::UnexpectedEof => Self::StreamEnded,
            IoFailure::PermissionDenied => Self::AuthenticationFailure,
        }
    }

    /// Classifies a transport error; `io` is consulted for an input or output
    /// error only.
    pub fn from_transport_failure(failure: TransportFailure, io: IoFailure) -> (result: Self)
        ensures
            result == Self::of_transport_failure(failure, io),
    {
        match failure {
            TransportFailure::ConnectionClosed | TransportFailure::AlreadyClosed => {
                Self::ConnectionReset
            },
            TransportFailure::Io => Self::from_io_failure(io),
            TransportFailure::ResetWithoutClosingHandshake => Self::UnexpectedClose,
            TransportFailure::Protocol | TransportFailure::Utf8 => Self::ProtocolViolation,
            TransportFailure::Tls => Self::ConfigurationError,
            TransportFailure::Capacity | TransportFailure::WriteBufferFull => {
                Self::UnexpectedClose
            },
            TransportFailure::AttackAttempt | TransportFailure::Url => Self::UnexpectedClose,
            TransportFailure::Http | TransportFailure::HttpFormat => Self::UnexpectedClose,
        }
    }

    /// Classifies an error of the transport.
    pub fn from_tungstenite_error(error: &tungstenite::Error) -> (result: Self)
        ensures
            result == Self::of_error(*error),
    {
        let failure = transport_failure_of(error);
        match io_cause_of(error) {
            Some(cause) => Self::from_transport_failure(failure, io_failure_of(cause)),
            None => Self::from_transport_failure(failure, IoFailure::Other),
        }
    }

    /// The name of the reason.
    pub fn name(&self) -> (result: &'static str)
        ensures
            result@ == self.spelled(),
    {
        match self {
            Self::NetworkInterruption => "NetworkInterruption",
            Self::ConnectionReset => "ConnectionReset",
            Self::ServerTemporaryError => "ServerTemporaryError",
            Self::UnexpectedClose => "UnexpectedClose",
            Self::StreamEnded => "StreamEnded",
            Self::AuthenticationFailure => "AuthenticationFailure",
            Self::ProtocolViolation => "ProtocolViolation",
            Self::ConfigurationError => "ConfigurationError",
            Self::UserInitiatedClose => "UserInitiatedClose",
            Self::PermanentServerError => "PermanentServerError",
            Self::NormalClose => "NormalClose",
        }
    }
}

/// A close that the user asked for never leads to a new connection.
pub proof fn law_user_close_is_final(code: u16)
    ensures
        !WebsocketConnectionFailureReason::of_close_code(code, true).recoverable(),
{
}

/// Among the closes the user did not ask for, those that lead to a new
/// connection are exactly the ones whose code is neither a normal close, a
/// protocol error, a policy violation, a TLS failure nor an application code.
pub proof fn law_recoverable_codes(code: u16)
    ensures
        WebsocketConnectionFailureReason::of_close_code(code, false).recoverable() <==> code != 1000
            && code != 1002 && code != 1008 && code != 1015 && !(4000 <= code <= 4999),
{
}

} // verus!
