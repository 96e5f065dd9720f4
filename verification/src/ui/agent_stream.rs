//! Sending a message to the agent and streaming its answer into the overlay.

use vstd::prelude::*;

use crate::number;
use crate::number::decimal_text;
use crate::opencode::json;
use crate::opencode::json::str_at;
use crate::opencode::types;
use crate::opencode::types::{PartDeltaProperties, PermissionRequest, SendMessageRequest};
use crate::text;
use crate::text::{chars_of, extend, extend_str, same_str, string_of};
use crate::ui::agent_overlay;
use crate::ui::agent_overlay::AgentOverlay;

verus! {

broadcast use vstd::string::group_string_axioms;

// ---------------------------------------------------------------------------------------------
// Events of the server
// ---------------------------------------------------------------------------------------------

/// The events of the server that matter for an answer.
#[derive(Debug, Clone, Copy, PartialEq, Eq, Structural)]
pub enum EventKind {
    /// Text was added to a part of a message.
    PartDelta,
    /// A session changed its status.
    SessionStatus,
    /// A tool asks for permission.
    PermissionAsked,
    /// Anything else.
    Other,
}

/// The kind of an event by the name of its type.
pub open spec fn kind_of(event_type: Seq<char>) -> EventKind {
    if event_type == "message.part.delta"@ {
        EventKind::PartDelta
    } else if event_type == "session.status"@ {
        EventKind::SessionStatus
    } else if event_type == "permission.asked"@ {
        EventKind::PermissionAsked
    } else {
        EventKind::Other
    }
}

/// The kind of an event by the name of its type.
pub fn event_kind(event_type: &str) -> (r: EventKind)
    ensures
        r == kind_of(event_type@),
{
    if same_str(event_type, "message.part.delta") {
        EventKind::PartDelta
    } else if same_str(event_type, "session.status") {
        EventKind::SessionStatus
    } else if same_str(event_type, "permission.asked") {
        EventKind::PermissionAsked
    } else {
        EventKind::Other
    }
}

/// An event of the server as far as it could be read.
#[derive(Debug, Clone, PartialEq, Eq)]
pub enum Incoming {
    /// Text was added to a part of a message.
    Delta(PartDeltaProperties),
    /// A session changed its status.
    Status { session_id: Option<String>, status: Option<String> },
    /// A tool asks for permission.
    Permission(PermissionRequest),
    /// Anything else, or an event that makes no sense.
    Other,
}

/// Reads the properties of a `session.status` event: `{ "sessionID": ..., "status": { "type": ...
/// } }`.
pub fn read_status(properties: &str) -> (r: Incoming)
    ensures
        r is Status,
        text::opt_string(r->session_id) == json::json_str_at(properties@, "/sessionID"@),
        text::opt_string(r->status) == json::json_str_at(properties@, "/status/type"@),
{
    Incoming::Status {
        session_id: str_at(properties, "/sessionID"),
        status: str_at(properties, "/status/type"),
    }
}

// ---------------------------------------------------------------------------------------------
// Permission requests
// ---------------------------------------------------------------------------------------------

/// How permission requests are dealt with.
#[derive(Debug, Clone, Copy, PartialEq, Eq, Structural)]
pub enum PermissionMode {
    /// The user reviews them.
    Ask,
    /// All are approved.
    AutoApprove,
    /// All are rejected.
    AutoReject,
}

/// What to do with a permission request.
#[derive(Debug, Clone, PartialEq, Eq)]
pub struct PermissionPlan {
    /// The reply to send at once.
    pub reply: Option<String>,
    /// Whether the request joins the queue for review.
    pub enqueue: bool,
    /// What to show in the status line.
    pub status: Option<String>,
    /// What to note in the chat.
    pub note: String,
}

/// What the chat says of a request that waits for review.
pub open spec fn review_note(name: Seq<char>, pending: nat) -> Seq<char> {
    "Agent wants to edit "@ + name + " — press Esc then :ai-perm to review ("@ + number::decimal(
        pending,
    ) + " pending)"@
}

/// Plans what to do with the request shown as `name`, with `queued` others waiting.
pub fn plan_permission(mode: PermissionMode, name: &str, queued: usize) -> (r: PermissionPlan)
    requires
        queued < usize::MAX,
    ensures
        match mode {
            PermissionMode::AutoApprove => {
                let said = "Auto-approved: "@ + name@;
                &&& text::opt_string(r.reply) == Some("once"@)
                &&& !r.enqueue
                &&& text::opt_string(r.status) == Some(said)
                &&& r.note@ == said
            },
            PermissionMode::AutoReject => {
                let said = "Auto-rejected: "@ + name@;
                &&& text::opt_string(r.reply) == Some("reject"@)
                &&& !r.enqueue
                &&& text::opt_string(r.status) == Some(said)
                &&& r.note@ == said
            },
            PermissionMode::Ask => {
                &&& r.reply is None
                &&& r.enqueue
                &&& r.status is None
                &&& r.note@ == review_note(name@, (queued + 1) as nat)
            },
        },
        r.enqueue <==> r.reply is None,
        r.reply is Some ==> text::opt_string(r.status) == Some(r.note@),
{
    match mode {
        PermissionMode::AutoApprove => {
            let mut t = chars_of("Auto-approved: ");
            extend_str(&mut t, name);
            let once = chars_of("once");
            PermissionPlan {
                reply: Some(string_of(&once)),
                enqueue: false,
                status: Some(string_of(&t)),
                note: string_of(&t),
            }
        },
        PermissionMode::AutoReject => {
            let mut t = chars_of("Auto-rejected: ");
            extend_str(&mut t, name);
            let reject = chars_of("reject");
            PermissionPlan {
                reply: Some(string_of(&reject)),
                enqueue: false,
                status: Some(string_of(&t)),
                note: string_of(&t),
            }
        },
        PermissionMode::Ask => {
            let mut t = chars_of("Agent wants to edit ");
            extend_str(&mut t, name);
            extend_str(&mut t, " — press Esc then :ai-perm to review (");
            let n = decimal_text((queued + 1) as u64);
            extend(&mut t, &n);
            extend_str(&mut t, " pending)");
            PermissionPlan { reply: None, enqueue: true, status: None, note: string_of(&t) }
        },
    }
}

// ---------------------------------------------------------------------------------------------
// Changes to the overlay
// ---------------------------------------------------------------------------------------------

/// A change to the overlay.
#[derive(Debug, PartialEq, Eq)]
pub enum OverlayUpdate {
    /// Something went wrong; no answer will come.
    Fail(String),
    /// A note beside the answer.
    Note(String),
    /// Text of the answer.
    Append(String),
    /// The answer is over. Where nothing was said, that is said.
    Silence,
    /// All is done, in the session given.
    Complete { session_id: String },
    /// The whole answer, or why there is none, in the session given.
    Answer { session_id: String, reply: Result<String, String> },
}

/// A change with its texts as character sequences.
pub enum Change {
    Fail(Seq<char>),
    Note(Seq<char>),
    Append(Seq<char>),
    Silence,
    Complete { session_id: Seq<char> },
    Answer { session_id: Seq<char>, reply: Result<Seq<char>, Seq<char>> },
}

impl View for OverlayUpdate {
    type V = Change;

    open spec fn view(&self) -> Change {
        match *self {
            OverlayUpdate::Fail(m) => Change::Fail(m@),
            OverlayUpdate::Note(m) => Change::Note(m@),
            OverlayUpdate::Append(t) => Change::Append(t@),
            OverlayUpdate::Silence => Change::Silence,
            OverlayUpdate::Complete { session_id } => Change::Complete { session_id: session_id@ },
            OverlayUpdate::Answer { session_id, reply } => Change::Answer {
                session_id: session_id@,
                reply: match reply {
                    Ok(t) => Ok(t@),
                    Err(e) => Err(e@),
                },
            },
        }
    }
}

/// What the chat says for an answer that was received whole.
pub open spec fn answer_text(reply: Result<Seq<char>, Seq<char>>) -> Seq<char> {
    match reply {
        Ok(t) => if t.len() == 0 {
            "(No response)"@
        } else {
            t
        },
        Err(e) => "Error: "@ + e,
    }
}

/// The chat after a change.
pub open spec fn updated(c: agent_overlay::Chat, change: Change) -> agent_overlay::Chat {
    match change {
        Change::Fail(m) => agent_overlay::Chat {
            loading: false,
            ..c.with_message("assistant"@, m)
        },
        Change::Note(m) => c.with_message("system"@, m),
        Change::Append(t) => c.with_text(t),
        Change::Silence => if c.assistant_spoke_last() {
            c
        } else {
            c.with_message("assistant"@, "(No response)"@)
        },
        Change::Complete { session_id } => agent_overlay::Chat {
            session_id: Some(session_id),
            loading: false,
            ..c
        },
        Change::Answer { session_id, reply } => agent_overlay::Chat {
            session_id: Some(session_id),
            loading: false,
            pinned_to_bottom: true,
            ..c.with_message("assistant"@, answer_text(reply))
        },
    }
}

impl AgentOverlay {
    /// Makes a change.
    pub fn apply(&mut self, update: OverlayUpdate)
        requires
            old(self).wf(),
        ensures
            final(self).wf(),
            final(self)@ == updated(old(self)@, update@),
    {
        match update {
            OverlayUpdate::Fail(m) => {
                self.loading = false;
                self.push_message("assistant", m.as_str());
            },
            OverlayUpdate::Note(m) => {
                self.push_message("system", m.as_str());
            },
            OverlayUpdate::Append(t) => {
                self.append_to_last(t.as_str());
            },
            OverlayUpdate::Silence => {
                let n = self.messages.len();
                proof {
                    assert(self@.messages.len() == n);
                    if n > 0 {
                        assert(self@.messages.last() == self.messages@[n - 1]@);
                    }
                }
                let spoke = n > 0 && same_str(self.messages[n - 1].role.as_str(), "assistant");
                if !spoke {
                    self.push_message("assistant", "(No response)");
                }
            },
            OverlayUpdate::Complete { session_id } => {
                self.session_id = Some(session_id);
                self.loading = false;
            },
            OverlayUpdate::Answer { session_id, reply } => {
                self.loading = false;
                self.session_id = Some(session_id);
                match reply {
                    Ok(t) => {
                        let c = chars_of(t.as_str());
                        if c.len() == 0 {
                            self.push_message("assistant", "(No response)");
                        } else {
                            self.push_message("assistant", t.as_str());
                        }
                    },
                    Err(e) => {
                        let mut c = chars_of("Error: ");
                        extend_str(&mut c, e.as_str());
                        let m = string_of(&c);
                        self.push_message("assistant", m.as_str());
                    },
                }
                self.pinned_to_bottom = true;
            },
        }
    }
}

// ---------------------------------------------------------------------------------------------
// The exchange
// ---------------------------------------------------------------------------------------------

/// How far the exchange has come.
#[derive(Debug, Clone, Copy, PartialEq, Eq, Structural)]
pub enum Phase {
    /// A session is being created.
    Creating,
    /// The event stream is being opened.
    Listening,
    /// The message is being sent; the answer will come as events.
    Sending,
    /// Events are received.
    Streaming,
    /// The overlay takes in what an event brought.
    Updating,
    /// The overlay takes in the end of the answer.
    Closing,
    /// Without events, the message is sent and its whole answer awaited.
    Waiting,
    /// The exchange is over.
    Done,
}

/// What happened.
#[derive(Debug, PartialEq, Eq)]
pub enum StreamEvent {
    /// The session exists, under this id.
    SessionCreated(String),
    /// The session could not be created.
    SessionFailed(String),
    /// The event stream is open.
    StreamOpened,
    /// The event stream could not be opened.
    StreamFailed,
    /// The message is sent.
    Sent,
    /// The message could not be sent.
    SendFailed(String),
    /// An event of the server.
    Received(Incoming),
    /// No more events will come.
    Ended,
    /// A change was made, if the overlay was still there.
    Updated { found: bool },
    /// The whole answer, or why there is none.
    Answered(Result<String, String>),
}

/// What is to be done next.
#[derive(Debug, PartialEq, Eq)]
pub enum StreamAction {
    /// Create a session.
    CreateSession,
    /// Open the event stream.
    OpenStream,
    /// Send the message in the session; do not wait for the answer.
    SendAsync { session_id: String, request: SendMessageRequest },
    /// Send the message in the session and wait for the answer.
    SendAndWait { session_id: String, request: SendMessageRequest },
    /// Wait for the next event.
    Receive,
    /// Make a change, and go on.
    Update(OverlayUpdate),
    /// Deal with a permission request, and go on.
    Permission(PermissionRequest),
    /// Make a change; the exchange is over.
    Finish(OverlayUpdate),
    /// Nothing.
    Nothing,
}

/// The exchange that follows a message to the agent.
pub struct Exchange {
    pub message: String,
    pub agent_id: Option<String>,
    pub session_id: String,
    pub phase: Phase,
    /// Whether the overlay is gone.
    pub cancelled: bool,
}

/// Whether a request carries the message to the agent.
pub open spec fn carries(r: SendMessageRequest, message: Seq<char>, agent: Option<Seq<char>>) -> bool {
    &&& r.parts@.len() == 1
    &&& r.parts@[0] is Text
    &&& types::parts_text(r.parts@) == message
    &&& text::opt_string(r.agent) == agent
}

/// Whether text belongs to the answer in the session.
pub open spec fn is_answer_text(p: PartDeltaProperties, session: Seq<char>) -> bool {
    p.session_id@ == session && p.field@ == "text"@
}

/// Whether a status event says that the session is done.
pub open spec fn is_idle(
    session_id: Option<Seq<char>>,
    status: Option<Seq<char>>,
    session: Seq<char>,
) -> bool {
    session_id == Some(session) && status == Some("idle"@)
}

/// The phase after an event of the server, while the overlay is there.
pub open spec fn phase_after_incoming(event: Incoming, session: Seq<char>) -> Phase {
    match event {
        Incoming::Delta(p) => if is_answer_text(p, session) {
            Phase::Updating
        } else {
            Phase::Streaming
        },
        Incoming::Status { session_id, status } => if is_idle(
            text::opt_string(session_id),
            text::opt_string(status),
            session,
        ) {
            Phase::Closing
        } else {
            Phase::Streaming
        },
        Incoming::Permission(request) => if request.session_id@ == session {
            Phase::Updating
        } else {
            Phase::Streaming
        },
        Incoming::Other => Phase::Streaming,
    }
}

/// The phase after an event. An event that does not fit the phase changes nothing.
pub open spec fn phase_after(phase: Phase, cancelled: bool, session: Seq<char>, event: StreamEvent) -> Phase {
    match (phase, event) {
        (Phase::Creating, StreamEvent::SessionCreated(_)) => Phase::Listening,
        (Phase::Creating, StreamEvent::SessionFailed(_)) => Phase::Done,
        (Phase::Listening, StreamEvent::StreamOpened) => Phase::Sending,
        (Phase::Listening, StreamEvent::StreamFailed) => Phase::Waiting,
        (Phase::Sending, StreamEvent::Sent) => Phase::Streaming,
        (Phase::Sending, StreamEvent::SendFailed(_)) => Phase::Done,
        (Phase::Streaming, StreamEvent::Received(incoming)) => if cancelled {
            Phase::Done
        } else {
            phase_after_incoming(incoming, session)
        },
        (Phase::Streaming, StreamEvent::Ended) => if cancelled {
            Phase::Done
        } else {
            Phase::Closing
        },
        (Phase::Updating, StreamEvent::Updated { .. }) => Phase::Streaming,
        (Phase::Closing, StreamEvent::Updated { .. }) => Phase::Done,
        (Phase::Waiting, StreamEvent::Answered(_)) => Phase::Done,
        _ => phase,
    }
}

/// Whether `action` is what an event calls for that took the exchange from `from` to `to`.
pub open spec fn calls_for(
    from: Phase,
    event: StreamEvent,
    to: Exchange,
    action: StreamAction,
) -> bool {
    let session = to.session_id@;
    match (from, event) {
        (Phase::Creating, StreamEvent::SessionCreated(_)) => action == StreamAction::OpenStream,
        (Phase::Creating, StreamEvent::SessionFailed(e)) => action is Finish
            && action->Finish_0@ == Change::Fail("Failed to create session: "@ + e@),
        (Phase::Listening, StreamEvent::StreamOpened) => action is SendAsync
            && action->SendAsync_session_id@ == session && carries(
            action->SendAsync_request,
            to.message@,
            text::opt_string(to.agent_id),
        ),
        (Phase::Listening, StreamEvent::StreamFailed) => action is SendAndWait
            && action->SendAndWait_session_id@ == session && carries(
            action->SendAndWait_request,
            to.message@,
            text::opt_string(to.agent_id),
        ),
        (Phase::Sending, StreamEvent::Sent) => action == StreamAction::Receive,
        (Phase::Sending, StreamEvent::SendFailed(e)) => action is Finish && action->Finish_0@
            == Change::Fail("Error: "@ + e@),
        (Phase::Streaming, StreamEvent::Received(incoming)) => match to.phase {
            Phase::Done => action is Finish && action->Finish_0@ == (Change::Complete {
                session_id: session,
            }),
            Phase::Closing => action is Update && action->Update_0@ == Change::Silence,
            Phase::Updating => match incoming {
                Incoming::Delta(p) => action is Update && action->Update_0@ == Change::Append(
                    p.delta@,
                ),
                Incoming::Permission(request) => action == StreamAction::Permission(request),
                _ => false,
            },
            _ => action == StreamAction::Receive,
        },
        (Phase::Streaming, StreamEvent::Ended) => if to.phase == Phase::Done {
            action is Finish && action->Finish_0@ == (Change::Complete { session_id: session })
        } else {
            action is Update && action->Update_0@ == Change::Silence
        },
        (Phase::Updating, StreamEvent::Updated { .. }) => action == StreamAction::Receive,
        (Phase::Closing, StreamEvent::Updated { .. }) => action is Finish && action->Finish_0@ == (
        Change::Complete { session_id: session }),
        (Phase::Waiting, StreamEvent::Answered(reply)) => action is Finish && action->Finish_0@ == (
        OverlayUpdate::Answer { session_id: to.session_id, reply })@,
        _ => action == StreamAction::Nothing,
    }
}

fn failure(head: &str, e: &String) -> (r: StreamAction)
    ensures
        r is Finish,
        r->Finish_0@ == Change::Fail(head@ + e@),
{
    let mut t = chars_of(head);
    extend_str(&mut t, e.as_str());
    StreamAction::Finish(OverlayUpdate::Fail(string_of(&t)))
}

fn says(o: &Option<String>, s: &str) -> (r: bool)
    ensures
        r == (text::opt_string(*o) == Some(s@)),
{
    match o {
        Some(t) => same_str(t.as_str(), s),
        None => false,
    }
}

impl Exchange {
    /// Begins an exchange: in the session given, else in one to be created.
    pub fn new(message: String, session_id: Option<String>, agent_id: Option<String>) -> (r: (
        Exchange,
        StreamAction,
    ))
        ensures
            r.0.message == message,
            r.0.agent_id == agent_id,
            !r.0.cancelled,
            match session_id {
                Some(id) => r.0.session_id == id && r.0.phase == Phase::Listening && r.1
                    == StreamAction::OpenStream,
                None => r.0.phase == Phase::Creating && r.1 == StreamAction::CreateSession,
            },
    {
        match session_id {
            Some(id) => (
                Exchange { message, agent_id, session_id: id, phase: Phase::Listening, cancelled: false },
                StreamAction::OpenStream,
            ),
            None => (
                Exchange {
                    message,
                    agent_id,
                    session_id: String::new(),
                    phase: Phase::Creating,
                    cancelled: false,
                },
                StreamAction::CreateSession,
            ),
        }
    }

    /// The request that carries the message to the agent.
    fn request(&self) -> (r: SendMessageRequest)
        ensures
            carries(r, self.message@, text::opt_string(self.agent_id)),
    {
        match &self.agent_id {
            Some(id) => SendMessageRequest::text_with_agent(self.message.as_str(), id.as_str()),
            None => SendMessageRequest::text(self.message.as_str()),
        }
    }

    fn complete(&self) -> (r: StreamAction)
        ensures
            r is Finish,
            r->Finish_0@ == (Change::Complete { session_id: self.session_id@ }),
    {
        StreamAction::Finish(OverlayUpdate::Complete { session_id: self.session_id.clone() })
    }

    fn receive(&mut self, incoming: Incoming) -> (r: StreamAction)
        requires
            old(self).phase == Phase::Streaming,
        ensures
            final(self).message == old(self).message,
            final(self).agent_id == old(self).agent_id,
            final(self).session_id == old(self).session_id,
            final(self).cancelled == old(self).cancelled,
            final(self).phase == phase_after(
                Phase::Streaming,
                old(self).cancelled,
                old(self).session_id@,
                StreamEvent::Received(incoming),
            ),
            calls_for(Phase::Streaming, StreamEvent::Received(incoming), *final(self), r),
    {
        if self.cancelled {
            self.phase = Phase::Done;
            return self.complete();
        }
        match incoming {
            Incoming::Delta(p) => {
                if same_str(p.session_id.as_str(), self.session_id.as_str()) && same_str(
                    p.field.as_str(),
                    "text",
                ) {
                    self.phase = Phase::Updating;
                    StreamAction::Update(OverlayUpdate::Append(p.delta))
                } else {
                    StreamAction::Receive
                }
            },
            Incoming::Status { session_id, status } => {
                if says(&session_id, self.session_id.as_str()) && says(&status, "idle") {
                    self.phase = Phase::Closing;
                    StreamAction::Update(OverlayUpdate::Silence)
                } else {
                    StreamAction::Receive
                }
            },
            Incoming::Permission(request) => {
                if same_str(request.session_id.as_str(), self.session_id.as_str()) {
                    self.phase = Phase::Updating;
                    StreamAction::Permission(request)
                } else {
                    StreamAction::Receive
                }
            },
            Incoming::Other => StreamAction::Receive,
        }
    }

    /// Takes what happened and says what to do next.
    pub fn step(&mut self, event: StreamEvent) -> (r: StreamAction)
        ensures
            final(self).message == old(self).message,
            final(self).agent_id == old(self).agent_id,
            final(self).session_id == (match (old(self).phase, event) {
                (Phase::Creating, StreamEvent::SessionCreated(id)) => id,
                _ => old(self).session_id,
            }),
            final(self).cancelled == (match (old(self).phase, event) {
                (Phase::Updating, StreamEvent::Updated { found }) => old(self).cancelled || !found,
                (Phase::Closing, StreamEvent::Updated { found }) => old(self).cancelled || !found,
                _ => old(self).cancelled,
            }),
            final(self).phase == phase_after(
                old(self).phase,
                old(self).cancelled,
                old(self).session_id@,
                event,
            ),
            calls_for(old(self).phase, event, *final(self), r),
            old(self).phase == Phase::Streaming && !old(self).cancelled ==> (
            event matches StreamEvent::Received(Incoming::Status { session_id, status }) ==> if (
            text::opt_string(session_id) == Some(old(self).session_id@) && text::opt_string(status)
                == Some("idle"@)) {
                final(self).phase == Phase::Closing
            } else {
                final(self).phase == Phase::Streaming && r == StreamAction::Receive
            }),
    {
        match (self.phase, event) {
            (Phase::Creating, StreamEvent::SessionCreated(id)) => {
                self.session_id = id;
                self.phase = Phase::Listening;
                StreamAction::OpenStream
            },
            (Phase::Creating, StreamEvent::SessionFailed(e)) => {
                self.phase = Phase::Done;
                failure("Failed to create session: ", &e)
            },
            (Phase::Listening, StreamEvent::StreamOpened) => {
                self.phase = Phase::Sending;
                StreamAction::SendAsync {
                    session_id: self.session_id.clone(),
                    request: self.request(),
                }
            },
            (Phase::Listening, StreamEvent::StreamFailed) => {
                self.phase = Phase::Waiting;
                StreamAction::SendAndWait {
                    session_id: self.session_id.clone(),
                    request: self.request(),
                }
            },
            (Phase::Sending, StreamEvent::Sent) => {
                self.phase = Phase::Streaming;
                StreamAction::Receive
            },
            (Phase::Sending, StreamEvent::SendFailed(e)) => {
                self.phase = Phase::Done;
                failure("Error: ", &e)
            },
            (Phase::Streaming, StreamEvent::Received(incoming)) => self.receive(incoming),
            (Phase::Streaming, StreamEvent::Ended) => {
                if self.cancelled {
                    self.phase = Phase::Done;
                    self.complete()
                } else {
                    self.phase = Phase::Closing;
                    StreamAction::Update(OverlayUpdate::Silence)
                }
            },
            (Phase::Updating, StreamEvent::Updated { found }) => {
                self.cancelled = self.cancelled || !found;
                self.phase = Phase::Streaming;
                StreamAction::Receive
            },
            (Phase::Closing, StreamEvent::Updated { found }) => {
                self.cancelled = self.cancelled || !found;
                self.phase = Phase::Done;
                self.complete()
            },
            (Phase::Waiting, StreamEvent::Answered(reply)) => {
                self.phase = Phase::Done;
                StreamAction::Finish(
                    OverlayUpdate::Answer { session_id: self.session_id.clone(), reply },
                )
            },
            _ => StreamAction::Nothing,
        }
    }
}

/// Events of other sessions leave the answer alone.
pub proof fn law_other_sessions_change_nothing(event: Incoming, session: Seq<char>)
    requires
        match event {
            Incoming::Delta(p) => p.session_id@ != session,
            Incoming::Status { session_id, .. } => text::opt_string(session_id) != Some(session),
            Incoming::Permission(request) => request.session_id@ != session,
            Incoming::Other => true,
        },
    ensures
        phase_after_incoming(event, session) == Phase::Streaming,
{
}

/// Once the overlay is gone, the next event ends the exchange.
pub proof fn law_cancelled_exchange_ends(session: Seq<char>, event: StreamEvent)
    requires
        event is Received || event is Ended,
    ensures
        phase_after(Phase::Streaming, true, session, event) == Phase::Done,
{
}

/// However an exchange ends, an answer is no longer awaited.
pub proof fn law_finish_ends_loading(
    from: Phase,
    event: StreamEvent,
    to: Exchange,
    action: StreamAction,
    c: agent_overlay::Chat,
)
    requires
        calls_for(from, event, to, action),
        action is Finish,
    ensures
        !updated(c, action->Finish_0@).loading,
{
}

/// Text that streams in piece by piece is said as one message.
pub proof fn law_streamed_text_is_one_message(c: agent_overlay::Chat, a: Seq<char>, b: Seq<char>)
    ensures
        updated(updated(c, Change::Append(a)), Change::Append(b)) == updated(
            c,
            Change::Append(a + b),
        ),
{
    let once = updated(c, Change::Append(a + b));
    let twice = updated(updated(c, Change::Append(a)), Change::Append(b));
    if c.assistant_spoke_last() {
        let last = c.messages.last();
        assert((last.content + a) + b =~= last.content + (a + b));
        let mid = updated(c, Change::Append(a));
        assert(mid.messages.drop_last() =~= c.messages.drop_last());
        assert(twice.messages =~= once.messages);
    } else {
        let mid = updated(c, Change::Append(a));
        assert(mid.messages.drop_last() =~= c.messages);
        assert(twice.messages =~= once.messages);
    }
}

/// An answer ends with the word that its session is idle. No other status ends it, nor that of
/// another session.
pub proof fn law_idle_session_ends_the_answer(
    session: Seq<char>,
    session_id: Option<String>,
    status: Option<String>,
    to: Exchange,
    action: StreamAction,
)
    requires
        ({
            let event = StreamEvent::Received(Incoming::Status { session_id, status });
            &&& to.phase == phase_after(Phase::Streaming, false, session, event)
            &&& calls_for(Phase::Streaming, event, to, action)
        }),
    ensures
        to.phase == Phase::Closing <==> session_id is Some && session_id->0@ == session && status is Some
            && status->0@ == seq!['i', 'd', 'l', 'e'],
        to.phase == Phase::Closing ==> action is Update && action->Update_0@ is Silence,
        to.phase != Phase::Closing ==> to.phase == Phase::Streaming && action
            == StreamAction::Receive,
{
    reveal_strlit("idle");
    assert("idle"@ =~= seq!['i', 'd', 'l', 'e']);
}

/// Text that the agent adds to a text part of its answer is shown; other fields and other sessions
/// are passed over.
pub proof fn law_answer_text_is_shown(
    session: Seq<char>,
    p: PartDeltaProperties,
    to: Exchange,
    action: StreamAction,
)
    requires
        ({
            let event = StreamEvent::Received(Incoming::Delta(p));
            &&& to.phase == phase_after(Phase::Streaming, false, session, event)
            &&& calls_for(Phase::Streaming, event, to, action)
        }),
    ensures
        p.session_id@ == session && p.field@ == seq!['t', 'e', 'x', 't'] ==> to.phase
            == Phase::Updating && action is Update && action->Update_0@ == Change::Append(p.delta@),
        !(p.session_id@ == session && p.field@ == seq!['t', 'e', 'x', 't']) ==> to.phase
            == Phase::Streaming && action == StreamAction::Receive,
{
    reveal_strlit("text");
    assert("text"@ =~= seq!['t', 'e', 'x', 't']);
}

/// A permission that a tool of the session asks for is dealt with; those of other sessions are
/// passed over.
pub proof fn law_permissions_of_the_session_are_dealt_with(
    session: Seq<char>,
    request: PermissionRequest,
    to: Exchange,
    action: StreamAction,
)
    requires
        ({
            let event = StreamEvent::Received(Incoming::Permission(request));
            &&& to.phase == phase_after(Phase::Streaming, false, session, event)
            &&& calls_for(Phase::Streaming, event, to, action)
        }),
    ensures
        request.session_id@ == session ==> to.phase == Phase::Updating && action
            == StreamAction::Permission(request),
        request.session_id@ != session ==> to.phase == Phase::Streaming && action
            == StreamAction::Receive,
{
}

/// The steps of an exchange, from one phase to the next: a session is created, the events are
/// listened to, the message is sent, and events are received until the answer is over. Without
/// events the message is sent and its whole answer awaited. What fails ends the exchange.
pub proof fn law_steps_of_an_exchange(
    from: Phase,
    cancelled: bool,
    event: StreamEvent,
    to: Exchange,
    action: StreamAction,
)
    requires
        to.phase == phase_after(from, cancelled, to.session_id@, event),
        calls_for(from, event, to, action),
    ensures
        from == Phase::Creating && event is SessionCreated ==> to.phase == Phase::Listening && action
            is OpenStream,
        from == Phase::Listening && event is StreamOpened ==> to.phase == Phase::Sending && action
            is SendAsync && action->SendAsync_session_id@ == to.session_id@ && carries(
            action->SendAsync_request,
            to.message@,
            text::opt_string(to.agent_id),
        ),
        from == Phase::Listening && event is StreamFailed ==> to.phase == Phase::Waiting && action
            is SendAndWait && action->SendAndWait_session_id@ == to.session_id@ && carries(
            action->SendAndWait_request,
            to.message@,
            text::opt_string(to.agent_id),
        ),
        from == Phase::Sending && event is Sent ==> to.phase == Phase::Streaming && action is Receive,
        from == Phase::Updating && event is Updated ==> to.phase == Phase::Streaming && action
            is Receive,
        from == Phase::Streaming && event is Ended && !cancelled ==> to.phase == Phase::Closing
            && action is Update && action->Update_0@ is Silence,
        from == Phase::Streaming && cancelled && (event is Ended || event is Received) ==> to.phase
            == Phase::Done && action is Finish && action->Finish_0@ == (Change::Complete {
            session_id: to.session_id@,
        }),
        from == Phase::Closing && event is Updated ==> to.phase == Phase::Done && action is Finish
            && action->Finish_0@ == (Change::Complete { session_id: to.session_id@ }),
        from == Phase::Waiting ==> (event matches StreamEvent::Answered(Ok(t)) ==> to.phase
            == Phase::Done && action is Finish && action->Finish_0@ == (Change::Answer {
            session_id: to.session_id@,
            reply: Ok(t@),
        })),
        from == Phase::Waiting ==> (event matches StreamEvent::Answered(Err(t)) ==> to.phase
            == Phase::Done && action is Finish && action->Finish_0@ == (Change::Answer {
            session_id: to.session_id@,
            reply: Err(t@),
        })),
        from == Phase::Creating ==> (event matches StreamEvent::SessionFailed(e) ==> to.phase
            == Phase::Done && action is Finish && action->Finish_0@ == Change::Fail(
            "Failed to create session: "@ + e@,
        )),
        from == Phase::Sending ==> (event matches StreamEvent::SendFailed(e) ==> to.phase
            == Phase::Done && action is Finish && action->Finish_0@ == Change::Fail("Error: "@ + e@)),
        from == Phase::Done ==> to.phase == Phase::Done && action is Nothing,
{
}

/// What a change adds to the chat: a failure and an answer are said by the assistant, a note by the
/// system; text goes to the end of what the assistant says; and only a failure, the end of the
/// exchange or a whole answer ends the waiting.
pub proof fn law_changes_to_the_chat(c: agent_overlay::Chat, t: Seq<char>, id: Seq<char>)
    ensures
        ({
            let said = |role: Seq<char>, content: Seq<char>|
                c.messages.push(crate::ui::chat::Said { role, content });
            let by_assistant = "assistant"@;
            let spoke = c.messages.len() > 0 && c.messages.last().role == by_assistant;
            let failed = updated(c, Change::Fail(t));
            let noted = updated(c, Change::Note(t));
            let grown = updated(c, Change::Append(t));
            let quiet = updated(c, Change::Silence);
            let done = updated(c, Change::Complete { session_id: id });
            let answered = updated(c, Change::Answer { session_id: id, reply: Ok(t) });
            let refused = updated(c, Change::Answer { session_id: id, reply: Err(t) });
            &&& failed.messages == said(by_assistant, t) && !failed.loading
            &&& noted.messages == said("system"@, t) && noted.loading == c.loading
            &&& grown.loading == c.loading
            &&& !spoke ==> grown.messages == said(by_assistant, t)
            &&& spoke ==> grown.messages.len() == c.messages.len() && grown.messages.last().content
                == c.messages.last().content + t && grown.messages.last().role == by_assistant
                && grown.messages.drop_last() == c.messages.drop_last()
            &&& spoke ==> quiet == c
            &&& !spoke ==> quiet.messages == said(by_assistant, "(No response)"@) && quiet.loading
                == c.loading
            &&& done == (agent_overlay::Chat { session_id: Some(id), loading: false, ..c })
            &&& answered.messages == said(
                by_assistant,
                if t.len() == 0 {
                    "(No response)"@
                } else {
                    t
                },
            )
            &&& refused.messages == said(by_assistant, "Error: "@ + t)
            &&& !answered.loading && !refused.loading
            &&& answered.session_id == Some(id) && refused.session_id == Some(id)
            &&& failed.session_id == c.session_id && grown.session_id == c.session_id
            &&& failed.input == c.input && noted.input == c.input && grown.input == c.input
            &&& failed.display_dirty && noted.display_dirty && grown.display_dirty
                && answered.display_dirty
        }),
{
    if c.messages.len() > 0 {
        let grown = updated(c, Change::Append(t));
        if c.messages.last().role == "assistant"@ {
            assert(grown.messages.drop_last() =~= c.messages.drop_last());
        }
    }
}

/// The names of the events that matter, and that no two of them are one.
pub proof fn law_events_have_their_names(name: Seq<char>)
    ensures
        kind_of("message.part.delta"@) == EventKind::PartDelta,
        kind_of("session.status"@) == EventKind::SessionStatus,
        kind_of("permission.asked"@) == EventKind::PermissionAsked,
        name != "message.part.delta"@ && name != "session.status"@ && name != "permission.asked"@
            ==> kind_of(name) == EventKind::Other,
{
    reveal_strlit("message.part.delta");
    reveal_strlit("session.status");
    reveal_strlit("permission.asked");
    assert("message.part.delta"@.len() != "session.status"@.len());
    assert("message.part.delta"@.len() != "permission.asked"@.len());
    assert("session.status"@.len() != "permission.asked"@.len());
}

/// Of a request that waits, the chat says the name and how many wait.
pub proof fn law_review_note_tells_name_and_count(name: Seq<char>, pending: nat)
    ensures
        text::has_prefix(review_note(name, pending), "Agent wants to edit "@ + name),
        exists|head: Seq<char>|
            review_note(name, pending) == #[trigger] (head + seq!['(']) + number::decimal(pending)
                + " pending)"@,
{
    let start = "Agent wants to edit "@ + name;
    let whole = review_note(name, pending);
    assert(whole.take(start.len() as int) =~= start);
    reveal_strlit(" — press Esc then :ai-perm to review (");
    let middle = " — press Esc then :ai-perm to review ("@;
    let head = start + middle.drop_last();
    assert(middle =~= middle.drop_last() + seq!['(']);
    assert(whole =~= (head + seq!['(']) + number::decimal(pending) + " pending)"@);
}

/// A message is sent as one part, a text that is the message, and to the agent that was chosen.
pub proof fn law_messages_are_sent_as_one_text(
    r: SendMessageRequest,
    message: Seq<char>,
    agent: Option<Seq<char>>,
)
    ensures
        carries(r, message, agent) ==> r.parts@.len() == 1 && (r.parts@[0] matches types::MessagePart::Text {
            text,
        } && text@ == message) && text::opt_string(r.agent) == agent,
{
    if carries(r, message, agent) {
        let text = r.parts@[0]->text;
        types::law_text_parts_make_the_text(Seq::empty(), Seq::empty(), text);
        assert(r.parts@ =~= seq![types::MessagePart::Text { text }]);
    }
}

} // verus!
