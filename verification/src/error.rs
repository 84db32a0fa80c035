//! Error types for the ndt7 client.

use vstd::prelude::*;
use vstd::string::StringExecFns;

verus! {

/// Errors that can occur during ndt7 operations.
///
/// Failure causes that originate outside the engine (the discovery
/// transport, the message transport, the platform) are carried as their
/// rendered message, so that the taxonomy itself stays plain data.
#[derive(Debug, Clone)]
pub enum Ndt7Error {
    /// The discovery HTTP request failed.
    LocateFailed(String),
    /// The discovery service reported temporary capacity exhaustion.
    NoCapacity,
    /// The discovery service returned no test targets.
    NoTargets,
    /// JSON serialization or deserialization failed.
    JsonError(String),
    /// A test exceeded its time limit.
    Timeout,
    /// A WebSocket-level error occurred. Boxed because transport errors
    /// carry a disproportionately large rendering.
    WebSocket(Box<String>),
    /// The provided service URL path is not a recognized ndt7 endpoint.
    ServiceUnsupported(String),
    /// A frame that is semantically invalid for the current subtest
    /// direction was received.
    ProtocolViolation(String),
    /// The URL could not be parsed.
    UrlParse(String),
    /// An I/O error occurred.
    IoError(String),
}

/// The rendered text of an error, mirroring [`Ndt7Error::message`].
pub open spec fn spec_error_message(e: Ndt7Error) -> Seq<char> {
    match e {
        Ndt7Error::LocateFailed(m) => "locate failed: "@ + m@,
        Ndt7Error::NoCapacity => "no capacity available"@,
        Ndt7Error::NoTargets => "no targets available"@,
        Ndt7Error::JsonError(m) => "serialize/deserialize error: "@ + m@,
        Ndt7Error::Timeout => "timeout occured"@,
        Ndt7Error::WebSocket(m) => "websocket error: "@ + m@,
        Ndt7Error::ServiceUnsupported(m) => "bad service URL: "@ + m@,
        Ndt7Error::ProtocolViolation(m) => "protocol violation: "@ + m@,
        Ndt7Error::UrlParse(m) => "URL parse error: "@ + m@,
        Ndt7Error::IoError(m) => "I/O error: "@ + m@,
    }
}

impl Ndt7Error {
    /// The human-readable description of this error.
    pub fn message(&self) -> (r: String)
        ensures
            r@ == spec_error_message(*self),
    {
        match self {
            Ndt7Error::LocateFailed(m) => {
                let mut s = String::from_str("locate failed: ");
                s.append(m.as_str());
                s
            },
            Ndt7Error::NoCapacity => String::from_str("no capacity available"),
            Ndt7Error::NoTargets => String::from_str("no targets available"),
            Ndt7Error::JsonError(m) => {
                let mut s = String::from_str("serialize/deserialize error: ");
                s.append(m.as_str());
                s
            },
            Ndt7Error::Timeout => String::from_str("timeout occured"),
            Ndt7Error::WebSocket(m) => {
                let mut s = String::from_str("websocket error: ");
                s.append(m.as_str());
                s
            },
            Ndt7Error::ServiceUnsupported(m) => {
                let mut s = String::from_str("bad service URL: ");
                s.append(m.as_str());
                s
            },
            Ndt7Error::ProtocolViolation(m) => {
                let mut s = String::from_str("protocol violation: ");
                s.append(m.as_str());
                s
            },
            Ndt7Error::UrlParse(m) => {
                let mut s = String::from_str("URL parse error: ");
                s.append(m.as_str());
                s
            },
            Ndt7Error::IoError(m) => {
                let mut s = String::from_str("I/O error: ");
                s.append(m.as_str());
                s
            },
        }
    }
}

} // verus!
