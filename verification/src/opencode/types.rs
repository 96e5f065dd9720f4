//! API request/response types for the OpenCode server protocol.

use vstd::prelude::*;

use crate::opencode::json;
use crate::opencode::json::str_at;
use crate::text;
use crate::text::{chars_of, extend_str, string_of};

verus! {

broadcast use vstd::string::group_string_axioms;

/// Response from GET /global/health
#[derive(Debug, Clone, PartialEq, Eq)]
pub struct HealthResponse {
    pub ok: bool,
}

/// An OpenCode session.
#[derive(Debug, Clone, PartialEq, Eq)]
pub struct Session {
    pub id: String,
    pub title: Option<String>,
    pub agent_id: Option<String>,
    pub created_at: Option<String>,
    pub updated_at: Option<String>,
}

/// An available agent.
#[derive(Debug, Clone, PartialEq, Eq)]
pub struct Agent {
    pub name: String,
    pub description: Option<String>,
    pub mode: Option<String>,
}

/// A message part (text content).
#[derive(Debug, Clone, PartialEq, Eq)]
pub enum MessagePart {
    Text { text: String },
    /// Catch-all for unknown part types returned by the server.
    Unknown,
}

/// A message in a session.
#[derive(Debug, Clone, PartialEq, Eq)]
pub struct Message {
    pub id: String,
    /// One of "user", "assistant", or "tool".
    pub role: String,
    pub parts: Vec<MessagePart>,
    pub session_id: Option<String>,
}

/// The text of a part; a part of an unknown kind has none.
pub open spec fn part_text(part: MessagePart) -> Seq<char> {
    match part {
        MessagePart::Text { text } => text@,
        MessagePart::Unknown => Seq::empty(),
    }
}

/// The texts of the parts, one after another.
pub open spec fn parts_text(parts: Seq<MessagePart>) -> Seq<char>
    decreases parts.len(),
{
    if parts.len() == 0 {
        Seq::empty()
    } else {
        parts_text(parts.drop_last()) + part_text(parts.last())
    }
}

impl Message {
    /// Get the concatenated text content of this message.
    pub fn text_content(&self) -> (r: String)
        ensures
            r@ == parts_text(self.parts@),
    {
        let mut t: Vec<char> = Vec::new();
        let mut i: usize = 0;
        proof {
            assert(self.parts@.take(0) =~= Seq::<MessagePart>::empty());
            assert(t@ =~= Seq::<char>::empty());
        }
        while i < self.parts.len()
            invariant
                i <= self.parts@.len(),
                t@ == parts_text(self.parts@.take(i as int)),
            decreases self.parts@.len() - i,
        {
            proof {
                assert(self.parts@.take(i + 1).drop_last() =~= self.parts@.take(i as int));
                assert(self.parts@.take(i + 1).last() == self.parts@[i as int]);
            }
            match &self.parts[i] {
                MessagePart::Text { text } => {
                    extend_str(&mut t, text.as_str());
                },
                MessagePart::Unknown => {
                    proof {
                        assert(t@ + Seq::<char>::empty() =~= t@);
                    }
                },
            }
            i = i + 1;
        }
        proof {
            assert(self.parts@.take(i as int) =~= self.parts@);
        }
        string_of(&t)
    }
}

/// Request body for POST /session/:id/message.
#[derive(Debug, Clone, PartialEq, Eq)]
pub struct SendMessageRequest {
    pub parts: Vec<MessagePart>,
    pub agent: Option<String>,
}

impl SendMessageRequest {
    /// Create a simple text message.
    pub fn text(content: &str) -> (r: SendMessageRequest)
        ensures
            r.parts@.len() == 1,
            r.parts@[0] is Text,
            parts_text(r.parts@) == content@,
            r.agent is None,
    {
        let t = chars_of(content);
        let mut parts: Vec<MessagePart> = Vec::new();
        parts.push(MessagePart::Text { text: string_of(&t) });
        proof {
            lemma_one_part(parts@);
        }
        SendMessageRequest { parts, agent: None }
    }

    /// Create a text message targeted at a specific agent.
    pub fn text_with_agent(content: &str, agent_id: &str) -> (r: SendMessageRequest)
        ensures
            r.parts@.len() == 1,
            r.parts@[0] is Text,
            parts_text(r.parts@) == content@,
            text::opt_string(r.agent) == Some(agent_id@),
    {
        let t = chars_of(agent_id);
        let mut r = SendMessageRequest::text(content);
        r.agent = Some(string_of(&t));
        r
    }
}

proof fn lemma_one_part(parts: Seq<MessagePart>)
    requires
        parts.len() == 1,
    ensures
        parts_text(parts) == part_text(parts[0]),
{
    assert(parts.drop_last() =~= Seq::<MessagePart>::empty());
    assert(parts_text(parts.drop_last()) =~= Seq::<char>::empty());
    assert(Seq::<char>::empty() + part_text(parts[0]) =~= part_text(parts[0]));
}

/// SSE event from the /event stream. The properties are JSON text.
#[derive(Debug, Clone, PartialEq, Eq)]
pub struct BusEvent {
    pub event_type: String,
    pub properties: String,
}

/// Properties for `message.part.delta` events (streaming text chunks).
#[derive(Debug, Clone, PartialEq, Eq)]
pub struct PartDeltaProperties {
    pub session_id: String,
    pub message_id: String,
    pub field: String,
    pub delta: String,
}

/// A permission request from the OpenCode server.
/// Emitted as SSE event "permission.asked" when a tool needs approval.
#[derive(Debug, Clone, PartialEq, Eq)]
pub struct PermissionRequest {
    /// Unique permission request ID (e.g., "per_...")
    pub id: String,
    /// Session this permission belongs to
    pub session_id: String,
    /// Permission type (e.g., "edit", "bash", "external_directory")
    pub permission: String,
    /// Patterns being acted on (e.g., relative file paths)
    pub patterns: Vec<String>,
    /// Tool-specific metadata (filepath, diff, files array for apply_patch), as JSON text
    pub metadata: String,
    /// Tool call info, as JSON text
    pub tool: Option<String>,
}

/// The name shown for a request: its first pattern, else its file, else what it asks for.
pub open spec fn shown_name(
    patterns: Seq<Seq<char>>,
    file: Option<Seq<char>>,
    permission: Seq<char>,
) -> Seq<char> {
    if patterns.len() > 0 {
        patterns[0]
    } else {
        match file {
            Some(path) => path,
            None => permission,
        }
    }
}

impl PermissionRequest {
    /// The file that the metadata names.
    pub open spec fn file(&self) -> Option<Seq<char>> {
        json::json_str_at(self.metadata@, "/filepath"@)
    }

    /// The unified diff in the metadata.
    pub open spec fn patch(&self) -> Option<Seq<char>> {
        json::json_str_at(self.metadata@, "/diff"@)
    }

    /// The name shown for the request.
    pub open spec fn name(&self) -> Seq<char> {
        shown_name(text::strings(self.patterns@), self.file(), self.permission@)
    }

    /// Get the file path from metadata (works for edit, write, apply_patch).
    pub fn file_path(&self) -> (r: Option<String>)
        ensures
            text::opt_string(r) == self.file(),
    {
        str_at(self.metadata.as_str(), "/filepath")
    }

    /// Get the unified diff from metadata.
    pub fn diff(&self) -> (r: Option<String>)
        ensures
            text::opt_string(r) == self.patch(),
    {
        str_at(self.metadata.as_str(), "/diff")
    }

    /// Get the display name (first pattern or file path).
    pub fn display_name(&self) -> (r: String)
        ensures
            r@ == self.name(),
    {
        let file = self.file_path();
        self.name_with(file)
    }

    /// The display name, given the file path.
    pub fn name_with(&self, file: Option<String>) -> (r: String)
        ensures
            r@ == shown_name(text::strings(self.patterns@), text::opt_string(file), self.permission@),
    {
        proof {
            assert(text::strings(self.patterns@).len() == self.patterns@.len());
        }
        if self.patterns.len() > 0 {
            proof {
                assert(text::strings(self.patterns@)[0] == self.patterns@[0]@);
            }
            self.patterns[0].clone()
        } else {
            match file {
                Some(path) => path,
                None => self.permission.clone(),
            }
        }
    }
}

/// Internal bookkeeping for a running OpenCode server.
#[derive(Debug, Clone, PartialEq, Eq)]
pub struct ServerInfo {
    pub port: u16,
    pub url: String,
    /// `true` if we spawned the process, `false` if it was already running.
    pub managed: bool,
}

/// The text of a message is that of its text parts, in order, with nothing between them.
pub proof fn law_text_parts_make_the_text(a: Seq<MessagePart>, b: Seq<MessagePart>, t: String)
    ensures
        parts_text(a + b) == parts_text(a) + parts_text(b),
        parts_text(seq![MessagePart::Text { text: t }]) == t@,
        parts_text(seq![MessagePart::Unknown]).len() == 0,
        parts_text(Seq::<MessagePart>::empty()).len() == 0,
    decreases b.len(),
{
    lemma_one_part(seq![MessagePart::Text { text: t }]);
    lemma_one_part(seq![MessagePart::Unknown]);
    if b.len() == 0 {
        assert(a + b =~= a);
        assert(parts_text(a) + parts_text(b) =~= parts_text(a));
    } else {
        law_text_parts_make_the_text(a, b.drop_last(), t);
        assert((a + b).drop_last() =~= a + b.drop_last());
        assert(parts_text(a + b) =~= parts_text(a) + parts_text(b));
    }
}

/// A request is shown by its first pattern; without one by its file; without that by what it asks
/// for. The file and the diff are found in the metadata.
pub proof fn law_requests_are_shown_by_name(
    r: PermissionRequest,
    patterns: Seq<Seq<char>>,
    file: Seq<char>,
    permission: Seq<char>,
)
    ensures
        patterns.len() > 0 ==> shown_name(patterns, Some(file), permission) == patterns.first()
            && shown_name(patterns, None, permission) == patterns.first(),
        shown_name(Seq::empty(), Some(file), permission) == file,
        shown_name(Seq::empty(), None, permission) == permission,
        r.file() == json::json_str_at(r.metadata@, "/filepath"@),
        r.patch() == json::json_str_at(r.metadata@, "/diff"@),
        r.patterns@.len() > 0 ==> r.name() == r.patterns@[0]@,
{
    assert(text::strings(r.patterns@).len() == r.patterns@.len());
}

} // verus!
