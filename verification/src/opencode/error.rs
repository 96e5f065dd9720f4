//! What can go wrong with the OpenCode server.

use vstd::prelude::*;

use crate::number;
use crate::number::decimal_text;
use crate::text::{chars_of, extend, extend_str, string_of};

verus! {

broadcast use vstd::string::group_string_axioms;

/// Errors that can occur when interacting with the OpenCode server.
#[derive(Debug, Clone, PartialEq, Eq)]
pub enum OpenCodeError {
    /// Server is not running or not reachable.
    ServerNotRunning,
    /// Failed to connect to the server.
    ConnectionFailed(String),
    /// Request timed out.
    Timeout,
    /// Server returned an invalid or unexpected response.
    InvalidResponse(String),
    /// Failed to spawn the server process.
    SpawnFailed(String),
    /// Server process crashed unexpectedly.
    ServerCrashed(String),
    /// HTTP error with status code.
    HttpError(u16, String),
    /// JSON serialization or deserialization error.
    JsonError(String),
}

/// The error as text.
pub open spec fn error_text(e: OpenCodeError) -> Seq<char> {
    match e {
        OpenCodeError::ServerNotRunning => "OpenCode server is not running"@,
        OpenCodeError::ConnectionFailed(m) => "Failed to connect to OpenCode: "@ + m@,
        OpenCodeError::Timeout => "OpenCode request timed out"@,
        OpenCodeError::InvalidResponse(m) => "Invalid response from OpenCode: "@ + m@,
        OpenCodeError::SpawnFailed(m) => "Failed to start OpenCode server: "@ + m@,
        OpenCodeError::ServerCrashed(m) => "OpenCode server crashed: "@ + m@,
        OpenCodeError::HttpError(status, m) => "OpenCode HTTP error "@ + number::decimal(
            status as nat,
        ) + ": "@ + m@,
        OpenCodeError::JsonError(m) => "OpenCode JSON error: "@ + m@,
    }
}

fn headed(head: &str, message: &String) -> (r: String)
    ensures
        r@ == head@ + message@,
{
    let mut t = chars_of(head);
    extend_str(&mut t, message.as_str());
    string_of(&t)
}

impl OpenCodeError {
    /// The error as text.
    pub fn message(&self) -> (r: String)
        ensures
            r@ == error_text(*self),
    {
        match self {
            OpenCodeError::ServerNotRunning => {
                let t = chars_of("OpenCode server is not running");
                string_of(&t)
            },
            OpenCodeError::ConnectionFailed(m) => headed("Failed to connect to OpenCode: ", m),
            OpenCodeError::Timeout => {
                let t = chars_of("OpenCode request timed out");
                string_of(&t)
            },
            OpenCodeError::InvalidResponse(m) => headed("Invalid response from OpenCode: ", m),
            OpenCodeError::SpawnFailed(m) => headed("Failed to start OpenCode server: ", m),
            OpenCodeError::ServerCrashed(m) => headed("OpenCode server crashed: ", m),
            OpenCodeError::HttpError(status, m) => {
                let mut t = chars_of("OpenCode HTTP error ");
                let n = decimal_text(*status as u64);
                extend(&mut t, &n);
                extend_str(&mut t, ": ");
                extend_str(&mut t, m.as_str());
                string_of(&t)
            },
            OpenCodeError::JsonError(m) => headed("OpenCode JSON error: ", m),
        }
    }

    /// The error for a request that got no response: a timeout, or a failed connection with what
    /// the transport says of it.
    pub fn from_transport(is_timeout: bool, message: String) -> (r: OpenCodeError)
        ensures
            r == (if is_timeout {
                OpenCodeError::Timeout
            } else {
                OpenCodeError::ConnectionFailed(message)
            }),
    {
        if is_timeout {
            OpenCodeError::Timeout
        } else {
            OpenCodeError::ConnectionFailed(message)
        }
    }
}

/// An error says what went wrong and, behind that, what is known of it.
pub proof fn law_errors_say_what_went_wrong(m: String, status: u16)
    ensures
        error_text(OpenCodeError::ConnectionFailed(m)) == "Failed to connect to OpenCode: "@ + m@,
        error_text(OpenCodeError::InvalidResponse(m)) == "Invalid response from OpenCode: "@ + m@,
        error_text(OpenCodeError::SpawnFailed(m)) == "Failed to start OpenCode server: "@ + m@,
        error_text(OpenCodeError::ServerCrashed(m)) == "OpenCode server crashed: "@ + m@,
        error_text(OpenCodeError::JsonError(m)) == "OpenCode JSON error: "@ + m@,
        error_text(OpenCodeError::HttpError(status, m)) == "OpenCode HTTP error "@
            + number::decimal(status as nat) + ": "@ + m@,
        error_text(OpenCodeError::ServerNotRunning) == "OpenCode server is not running"@,
        error_text(OpenCodeError::Timeout) == "OpenCode request timed out"@,
{
}

} // verus!
