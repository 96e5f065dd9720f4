//! What the OpenCode server is asked over HTTP, and what its answers mean.

use vstd::prelude::*;

use crate::number;
use crate::number::decimal_text;
use crate::opencode::error::OpenCodeError;
use crate::opencode::json;
use crate::opencode::json::{object_text, parse_fault, str_at};
use crate::opencode::types::{Message, MessagePart};
use crate::text;
use crate::text::{chars_of, extend, extend_str, string_of};

verus! {

broadcast use vstd::string::group_string_axioms;

/// How long a request may take, in milliseconds.
pub const DEFAULT_TIMEOUT_MS: u64 = 30_000;

/// How long a health check may take, in milliseconds.
pub const HEALTH_TIMEOUT_MS: u64 = 5_000;

/// How long the answer to a message may take, in milliseconds.
pub const MESSAGE_TIMEOUT_MS: u64 = 300_000;

/// How long the reply to a permission request may take, in milliseconds.
pub const REPLY_TIMEOUT_MS: u64 = 10_000;

/// What a request does.
#[derive(Debug, Clone, Copy, PartialEq, Eq, Structural)]
pub enum Method {
    Get,
    Post,
}

/// A request to the server.
#[derive(Debug, Clone, PartialEq, Eq)]
pub struct Request {
    pub method: Method,
    pub url: String,
    /// How long the request may take, in milliseconds; no limit where there is none.
    pub timeout_ms: Option<u64>,
    /// The JSON body, where the library writes it.
    pub body: Option<String>,
    /// The type of answer asked for.
    pub accept: Option<String>,
}

/// Client for communicating with the OpenCode server.
#[derive(Debug, Clone, PartialEq, Eq)]
pub struct OpenCodeClient {
    pub base_url: String,
}

/// The address of a server on a port of this machine.
pub open spec fn local_url(port: u16) -> Seq<char> {
    "http://127.0.0.1:"@ + number::decimal(port as nat)
}

/// The address of a server on a port of this machine.
pub fn server_url(port: u16) -> (r: String)
    ensures
        r@ == local_url(port),
{
    let mut t = chars_of("http://127.0.0.1:");
    let n = decimal_text(port as u64);
    extend(&mut t, &n);
    string_of(&t)
}

impl OpenCodeClient {
    /// Create a new client pointing at the given port on localhost.
    pub fn new(port: u16) -> (r: OpenCodeClient)
        ensures
            r.base_url@ == local_url(port),
    {
        OpenCodeClient { base_url: server_url(port) }
    }

    /// Get the base URL this client is configured to use.
    pub fn base_url(&self) -> (r: &str)
        ensures
            r@ == self.base_url@,
    {
        self.base_url.as_str()
    }

    fn url(&self, a: &str, b: &str, c: &str) -> (r: String)
        ensures
            r@ == self.base_url@ + a@ + b@ + c@,
    {
        let mut t = chars_of(self.base_url.as_str());
        extend_str(&mut t, a);
        extend_str(&mut t, b);
        extend_str(&mut t, c);
        string_of(&t)
    }

    fn plain_url(&self, path: &str) -> (r: String)
        ensures
            r@ == self.base_url@ + path@,
    {
        let mut t = chars_of(self.base_url.as_str());
        extend_str(&mut t, path);
        string_of(&t)
    }

    /// Asks whether the server is healthy and reachable.
    pub fn health_request(&self) -> (r: Request)
        ensures
            r.method == Method::Get,
            r.url@ == self.base_url@ + "/global/health"@,
            r.timeout_ms == Some(HEALTH_TIMEOUT_MS),
            r.timeout_ms == Some(5_000u64),
            r.body is None,
            r.accept is None,
    {
        Request {
            method: Method::Get,
            url: self.plain_url("/global/health"),
            timeout_ms: Some(HEALTH_TIMEOUT_MS),
            body: None,
            accept: None,
        }
    }

    /// Asks for the available agents.
    pub fn agents_request(&self) -> (r: Request)
        ensures
            r.method == Method::Get,
            r.url@ == self.base_url@ + "/agent"@,
            r.timeout_ms == Some(DEFAULT_TIMEOUT_MS),
            r.timeout_ms == Some(30_000u64),
            r.body is None,
            r.accept is None,
    {
        Request {
            method: Method::Get,
            url: self.plain_url("/agent"),
            timeout_ms: Some(DEFAULT_TIMEOUT_MS),
            body: None,
            accept: None,
        }
    }

    /// Creates a new session.
    pub fn session_request(&self) -> (r: Request)
        ensures
            r.method == Method::Post,
            r.url@ == self.base_url@ + "/session"@,
            r.timeout_ms == Some(DEFAULT_TIMEOUT_MS),
            r.timeout_ms == Some(30_000u64),
            r.body is None,
            r.accept is None,
    {
        Request {
            method: Method::Post,
            url: self.plain_url("/session"),
            timeout_ms: Some(DEFAULT_TIMEOUT_MS),
            body: None,
            accept: None,
        }
    }

    /// Sends a message to a session, whose answer is waited for. The message itself goes with it
    /// as JSON.
    pub fn message_request(&self, session_id: &str) -> (r: Request)
        ensures
            r.method == Method::Post,
            r.url@ == self.base_url@ + "/session/"@ + session_id@ + "/message"@,
            r.timeout_ms == Some(MESSAGE_TIMEOUT_MS),
            r.timeout_ms == Some(300_000u64),
            r.body is None,
            r.accept is None,
    {
        Request {
            method: Method::Post,
            url: self.url("/session/", session_id, "/message"),
            timeout_ms: Some(MESSAGE_TIMEOUT_MS),
            body: None,
            accept: None,
        }
    }

    /// Asks for all messages in a session.
    pub fn messages_request(&self, session_id: &str) -> (r: Request)
        ensures
            r.method == Method::Get,
            r.url@ == self.base_url@ + "/session/"@ + session_id@ + "/message"@,
            r.timeout_ms == Some(DEFAULT_TIMEOUT_MS),
            r.timeout_ms == Some(30_000u64),
            r.body is None,
            r.accept is None,
    {
        Request {
            method: Method::Get,
            url: self.url("/session/", session_id, "/message"),
            timeout_ms: Some(DEFAULT_TIMEOUT_MS),
            body: None,
            accept: None,
        }
    }

    /// Sends a message to a session, whose answer arrives as events. The message itself goes with
    /// it as JSON.
    pub fn async_message_request(&self, session_id: &str) -> (r: Request)
        ensures
            r.method == Method::Post,
            r.url@ == self.base_url@ + "/session/"@ + session_id@ + "/prompt_async"@,
            r.timeout_ms == Some(DEFAULT_TIMEOUT_MS),
            r.timeout_ms == Some(30_000u64),
            r.body is None,
            r.accept is None,
    {
        Request {
            method: Method::Post,
            url: self.url("/session/", session_id, "/prompt_async"),
            timeout_ms: Some(DEFAULT_TIMEOUT_MS),
            body: None,
            accept: None,
        }
    }

    /// Connects to the event stream. The connection is long-lived and must not time out.
    pub fn events_request(&self) -> (r: Request)
        ensures
            r.method == Method::Get,
            r.url@ == self.base_url@ + "/event"@,
            r.timeout_ms is None,
            r.body is None,
            text::opt_string(r.accept) == Some("text/event-stream"@),
    {
        let accept = chars_of("text/event-stream");
        Request {
            method: Method::Get,
            url: self.plain_url("/event"),
            timeout_ms: None,
            body: None,
            accept: Some(string_of(&accept)),
        }
    }

    /// Replies to a permission request.
    ///
    /// `reply` is one of:
    /// - `"once"` — approve this time only
    /// - `"always"` — auto-approve future identical requests
    /// - `"reject"` — deny the request
    ///
    /// `message` is optional feedback the agent will see (useful when rejecting). The body is a
    /// JSON object from which both are read back.
    pub fn reply_request(&self, request_id: &str, reply: &str, message: Option<&str>) -> (r: Request)
        ensures
            r.method == Method::Post,
            r.url@ == self.base_url@ + "/permission/"@ + request_id@ + "/reply"@,
            r.timeout_ms == Some(REPLY_TIMEOUT_MS),
            r.timeout_ms == Some(10_000u64),
            r.accept is None,
            r.body is Some,
            json::json_str_at(r.body->0@, "/reply"@) == Some(reply@),
            json::json_str_at(r.body->0@, "/message"@) == (match message {
                Some(m) => Some(m@),
                None => None,
            }),
    {
        let reply_key = chars_of("reply");
        let reply_text = chars_of(reply);
        let mut members: Vec<(String, String)> = Vec::new();
        members.push((string_of(&reply_key), string_of(&reply_text)));
        match message {
            Some(m) => {
                let message_key = chars_of("message");
                let message_text = chars_of(m);
                members.push((string_of(&message_key), string_of(&message_text)));
            },
            None => {},
        }
        let body = object_text(members);
        proof {
            reveal_strlit("reply");
            reveal_strlit("message");
            reveal_strlit("/reply");
            reveal_strlit("/message");
            assert("/reply"@ =~= json::member("reply"@));
            assert("/message"@ =~= json::member("message"@));
            assert(members@[0].0@ == "reply"@ && members@[0].1@ == reply@);
            if message is Some {
                assert(members@[1].0@ == "message"@ && members@[1].1@ == message->0@);
            }
        }
        Request {
            method: Method::Post,
            url: self.url("/permission/", request_id, "/reply"),
            timeout_ms: Some(REPLY_TIMEOUT_MS),
            body: Some(body),
            accept: None,
        }
    }
}

/// Whether an HTTP status tells of success.
pub open spec fn is_success(status: u16) -> bool {
    200 <= status < 300
}

/// Whether an HTTP status tells of success.
pub fn succeeded(status: u16) -> (r: bool)
    ensures
        r == is_success(status),
{
    200 <= status && status < 300
}

/// The body of a response, or the error that its status stands for.
pub fn accept_response(status: u16, body: String) -> (r: Result<String, OpenCodeError>)
    ensures
        r == (if is_success(status) {
            Ok::<String, OpenCodeError>(body)
        } else {
            Err(OpenCodeError::HttpError(status, body))
        }),
{
    if succeeded(status) {
        Ok(body)
    } else {
        Err(OpenCodeError::HttpError(status, body))
    }
}

/// Whether the response to the request for events opens the stream.
pub fn accept_events(status: u16) -> (r: Result<(), OpenCodeError>)
    ensures
        r is Ok <==> is_success(status),
        r is Err ==> r->Err_0 is HttpError && r->Err_0->HttpError_0 == status
            && r->Err_0->HttpError_1@ == "SSE connection failed"@,
{
    if succeeded(status) {
        Ok(())
    } else {
        let t = chars_of("SSE connection failed");
        Err(OpenCodeError::HttpError(status, string_of(&t)))
    }
}

/// The message that a response to a sent message holds, given what was found in it: what it lacks
/// as JSON, the id of the message and its parts.
pub fn assistant_message(
    session_id: &str,
    fault: Option<String>,
    id: Option<String>,
    parts: Option<Vec<MessagePart>>,
) -> (r: Result<Message, OpenCodeError>)
    ensures
        match fault {
            Some(e) => r == Err::<Message, OpenCodeError>(OpenCodeError::JsonError(e)),
            None => r is Ok && {
                let m = r->Ok_0;
                &&& m.id@ == (match id {
                    Some(t) => t@,
                    None => Seq::empty(),
                })
                &&& m.role@ == "assistant"@
                &&& m.parts@ == (match parts {
                    Some(p) => p@,
                    None => Seq::empty(),
                })
                &&& text::opt_string(m.session_id) == Some(session_id@)
            },
        },
{
    match fault {
        Some(e) => Err(OpenCodeError::JsonError(e)),
        None => {
            let role = chars_of("assistant");
            let session = chars_of(session_id);
            Ok(
                Message {
                    id: match id {
                        Some(t) => t,
                        None => String::new(),
                    },
                    role: string_of(&role),
                    parts: match parts {
                        Some(p) => p,
                        None => Vec::new(),
                    },
                    session_id: Some(string_of(&session)),
                },
            )
        },
    }
}

/// Reads the response to a sent message: the envelope `{ "info": { "id": "...", ... }, "parts":
/// [...] }`. `parts` are the parts of the envelope, where they could be read.
pub fn read_message(session_id: &str, body: &str, parts: Option<Vec<MessagePart>>) -> (r: Result<
    Message,
    OpenCodeError,
>)
    ensures
        match json::json_fault(body@) {
            Some(e) => r is Err && r->Err_0 is JsonError && r->Err_0->JsonError_0@ == e,
            None => r is Ok && {
                let m = r->Ok_0;
                &&& m.id@ == (match json::json_str_at(body@, "/info/id"@) {
                    Some(t) => t,
                    None => Seq::empty(),
                })
                &&& m.role@ == "assistant"@
                &&& m.parts@ == (match parts {
                    Some(p) => p@,
                    None => Seq::empty(),
                })
                &&& text::opt_string(m.session_id) == Some(session_id@)
            },
        },
{
    let fault = parse_fault(body);
    let id = str_at(body, "/info/id");
    assistant_message(session_id, fault, id, parts)
}

/// A status tells of success where it is one of the two hundreds.
pub proof fn law_two_hundreds_are_success(status: u16)
    ensures
        is_success(status) <==> status / 100 == 2,
{
}

/// A server on this machine is addressed by its port.
pub proof fn law_servers_are_addressed_by_port(port: u16, other: u16)
    ensures
        local_url(port) == "http://127.0.0.1:"@ + number::decimal(port as nat),
        local_url(port) == local_url(other) ==> port == other,
{
    let head = "http://127.0.0.1:"@;
    let n = head.len() as int;
    assert(local_url(port).skip(n) =~= number::decimal(port as nat));
    assert(local_url(other).skip(n) =~= number::decimal(other as nat));
    number::law_decimal_round_trip(port as usize);
    number::law_decimal_round_trip(other as usize);
}

} // verus!
