//! The overlay for talking to an AI agent.

use vstd::prelude::*;

use crate::bytes;
use crate::text;
use crate::text::{chars_of, extend, extend_str, same_str, string_of};
use crate::ui::chat;
use crate::ui::chat::{display_lines, ChatMessage, ChatStyles, DisplayLine};
use crate::ui::draw;
use crate::ui::input;
use crate::ui::input::LineInput;
use crate::ui::keys;
use crate::ui::keys::{Event, Key, KeyCode};

verus! {

broadcast use vstd::string::group_string_axioms;

/// Height reserved for the input area (border + prompt line + padding).
pub const INPUT_AREA_HEIGHT: u16 = 3;

/// How many lines a page key scrolls.
pub const PAGE_LINES: usize = 20;

/// Full-screen overlay for AI agent interaction.
///
/// Layout:
/// ```text
/// ┌─ AI Agent ──────────────────────┐
/// │ You:                            │
/// │   What does this function do?   │
/// │                                 │
/// │ Assistant:                      │
/// │   It calculates the checksum…   │
/// │                                 │
/// │─────────────────────────────────│
/// │ > type here…                    │
/// └─────────────────────────────────┘
/// ```
pub struct AgentOverlay {
    /// Conversation history.
    pub messages: Vec<ChatMessage>,
    /// The input line.
    pub input: LineInput,
    /// Scroll offset (in logical lines) for the output area.
    pub scroll_offset: usize,
    /// Whether we are waiting for a server response.
    pub loading: bool,
    /// Session ID assigned by the opencode server (None until first message).
    pub session_id: Option<String>,
    /// Optional agent ID to target when sending messages.
    pub agent_id: Option<String>,
    /// Display name for the agent shown in the overlay title.
    pub agent_name: String,
    /// Pre-computed display lines for rendering.
    pub display_lines: Vec<DisplayLine>,
    /// Width used for the last display line computation.
    pub cached_width: u16,
    /// Flag to indicate display lines need recomputation.
    pub display_dirty: bool,
    /// Whether the view is pinned to the bottom (auto-scrolls on new content).
    pub pinned_to_bottom: bool,
    /// Optional code context from visual selection (one-shot, cleared after first message).
    pub context_code: Option<String>,
    /// Description of the context (e.g., "src/main.rs:42-58").
    pub context_info: Option<String>,
}

/// The state of the overlay, with its texts as character sequences.
pub struct Chat {
    pub messages: Seq<chat::Said>,
    pub input: input::Line,
    pub scroll_offset: int,
    pub loading: bool,
    pub session_id: Option<Seq<char>>,
    pub agent_id: Option<Seq<char>>,
    pub agent_name: Seq<char>,
    pub display_lines: Seq<chat::Shown>,
    pub cached_width: int,
    pub display_dirty: bool,
    pub pinned_to_bottom: bool,
    pub context_code: Option<Seq<char>>,
    pub context_info: Option<Seq<char>>,
}

impl View for AgentOverlay {
    type V = Chat;

    open spec fn view(&self) -> Chat {
        Chat {
            messages: chat::said(self.messages@),
            input: self.input@,
            scroll_offset: self.scroll_offset as int,
            loading: self.loading,
            session_id: text::opt_string(self.session_id),
            agent_id: text::opt_string(self.agent_id),
            agent_name: self.agent_name@,
            display_lines: chat::shown(self.display_lines@),
            cached_width: self.cached_width as int,
            display_dirty: self.display_dirty,
            pinned_to_bottom: self.pinned_to_bottom,
            context_code: text::opt_string(self.context_code),
            context_info: text::opt_string(self.context_info),
        }
    }
}

impl Chat {
    /// A chat in which nothing has happened.
    pub open spec fn blank() -> Chat {
        Chat {
            messages: Seq::empty(),
            input: input::Line::blank(),
            scroll_offset: 0,
            loading: false,
            session_id: None,
            agent_id: None,
            agent_name: "AI Agent"@,
            display_lines: Seq::empty(),
            cached_width: 0,
            display_dirty: true,
            pinned_to_bottom: true,
            context_code: None,
            context_info: None,
        }
    }

    /// With one more message.
    pub open spec fn with_message(self, role: Seq<char>, content: Seq<char>) -> Chat {
        Chat {
            messages: self.messages.push(chat::Said { role, content }),
            display_dirty: true,
            ..self
        }
    }

    /// Whether the last message is the assistant's.
    pub open spec fn assistant_spoke_last(self) -> bool {
        self.messages.len() > 0 && self.messages.last().role == "assistant"@
    }

    /// With text added to what the assistant says.
    pub open spec fn with_text(self, text: Seq<char>) -> Chat {
        if self.assistant_spoke_last() {
            let last = self.messages.last();
            Chat {
                messages: self.messages.drop_last().push(
                    chat::Said { content: last.content + text, ..last },
                ),
                display_dirty: true,
                ..self
            }
        } else {
            self.with_message("assistant"@, text)
        }
    }

    /// Scrolled down by `n` lines. Past the end the view is pinned there.
    pub open spec fn scrolled_down(self, n: int) -> Chat {
        let offset = draw::least(self.scroll_offset + n, usize::MAX as int);
        Chat {
            scroll_offset: offset,
            pinned_to_bottom: self.pinned_to_bottom || offset + 1 >= self.display_lines.len(),
            ..self
        }
    }

    /// Scrolled up by `n` lines.
    pub open spec fn scrolled_up(self, n: int) -> Chat {
        Chat {
            scroll_offset: draw::less(self.scroll_offset, n),
            pinned_to_bottom: false,
            ..self
        }
    }

    /// The message that the input stands for: behind the selected code, where there is any.
    pub open spec fn outgoing(self) -> Seq<char> {
        match self.context_code {
            Some(code) => "Context from "@ + (match self.context_info {
                Some(info) => info,
                None => Seq::empty(),
            }) + ":\n```\n"@ + code + "\n```\n\n"@ + self.input.text,
            None => self.input.text,
        }
    }

    /// After sending the input: it is said, an answer is awaited, and the selected code is gone.
    pub open spec fn sent(self) -> Chat {
        Chat {
            input: input::Line::blank(),
            context_code: None,
            context_info: match self.context_code {
                Some(_) => None,
                None => self.context_info,
            },
            loading: true,
            pinned_to_bottom: true,
            ..self.with_message("user"@, self.outgoing())
        }
    }

    /// Whether the enter key sends the input.
    pub open spec fn can_send(self) -> bool {
        self.input.text.len() > 0 && !self.loading
    }
}

/// What to say where there is no server.
pub const NOT_CONNECTED: &'static str = "OpenCode server not connected. Run :ai-start first.";

/// What the overlay asks for after an event.
#[derive(Debug, Clone, PartialEq, Eq)]
pub enum ChatAction {
    /// The event is not for the overlay.
    Ignored,
    /// The event is dealt with.
    Consumed,
    /// Close the overlay.
    Close,
    /// Open the review of the first pending permission request, the first of `queue_total`.
    Review { queue_total: usize },
    /// Send the message, in the session and to the agent given, if any.
    Send { message: String, session_id: Option<String>, agent_id: Option<String> },
}

/// An action with its texts as character sequences.
pub enum Asked {
    Ignored,
    Consumed,
    Close,
    Review { queue_total: int },
    Send { message: Seq<char>, session_id: Option<Seq<char>>, agent_id: Option<Seq<char>> },
}

impl View for ChatAction {
    type V = Asked;

    open spec fn view(&self) -> Asked {
        match *self {
            ChatAction::Ignored => Asked::Ignored,
            ChatAction::Consumed => Asked::Consumed,
            ChatAction::Close => Asked::Close,
            ChatAction::Review { queue_total } => Asked::Review { queue_total: queue_total as int },
            ChatAction::Send { message, session_id, agent_id } => Asked::Send {
                message: message@,
                session_id: text::opt_string(session_id),
                agent_id: text::opt_string(agent_id),
            },
        }
    }
}

/// The chat after a key. `pending` permission requests wait for review; `connected` says whether
/// there is a server.
pub open spec fn chat_after(c: Chat, key: Key, pending: int, connected: bool) -> Chat {
    let ctrl = key.modifiers == keys::KeyModifiers::only_control();
    let shift = key.modifiers == keys::KeyModifiers::only_shift();
    match key.code {
        KeyCode::Esc => c,
        KeyCode::Enter => if c.can_send() {
            if connected {
                c.sent()
            } else {
                Chat {
                    loading: false,
                    ..c.sent().with_message("assistant"@, NOT_CONNECTED@)
                }
            }
        } else {
            c
        },
        KeyCode::Char(ch) => if ch == 'k' && ctrl {
            c.scrolled_up(1)
        } else if ch == 'j' && ctrl {
            c.scrolled_down(1)
        } else if ch == 'G' && shift {
            Chat { pinned_to_bottom: true, ..c }
        } else if key.types() {
            Chat { input: c.input.typed(ch), ..c }
        } else {
            c
        },
        KeyCode::Backspace => Chat { input: c.input.erased(), ..c },
        KeyCode::Left => Chat { input: c.input.to_left(), ..c },
        KeyCode::Right => Chat { input: c.input.to_right(), ..c },
        KeyCode::Home => Chat { input: input::Line { at: 0, ..c.input }, ..c },
        KeyCode::End => if ctrl {
            Chat { pinned_to_bottom: true, ..c }
        } else {
            Chat { input: input::Line { at: c.input.text.len() as int, ..c.input }, ..c }
        },
        KeyCode::PageUp => c.scrolled_up(PAGE_LINES as int),
        KeyCode::PageDown => c.scrolled_down(PAGE_LINES as int),
        _ => c,
    }
}

/// What the overlay asks for after a key.
pub open spec fn asked_after(c: Chat, key: Key, pending: int, connected: bool) -> Asked {
    match key.code {
        KeyCode::Esc => Asked::Close,
        KeyCode::Enter => if c.input.text.len() == 0 && pending > 0 && connected {
            Asked::Review { queue_total: pending }
        } else if c.can_send() && connected {
            Asked::Send {
                message: c.outgoing(),
                session_id: c.session_id,
                agent_id: c.agent_id,
            }
        } else {
            Asked::Consumed
        },
        _ => Asked::Consumed,
    }
}

fn copy_of(o: &Option<String>) -> (r: Option<String>)
    ensures
        text::opt_string(r) == text::opt_string(*o),
{
    match o {
        Some(s) => Some(s.clone()),
        None => None,
    }
}

impl AgentOverlay {
    /// The cursor of the input line is in place.
    pub open spec fn wf(&self) -> bool {
        self.input.wf()
    }

    /// An overlay in which nothing has happened.
    pub fn new() -> (r: AgentOverlay)
        ensures
            r.wf(),
            r@ == Chat::blank(),
    {
        let name = chars_of("AI Agent");
        let r = AgentOverlay {
            messages: Vec::new(),
            input: LineInput::new(),
            scroll_offset: 0,
            loading: false,
            session_id: None,
            agent_id: None,
            agent_name: string_of(&name),
            display_lines: Vec::new(),
            cached_width: 0,
            display_dirty: true,
            pinned_to_bottom: true,
            context_code: None,
            context_info: None,
        };
        proof {
            assert(r@.messages =~= Seq::<chat::Said>::empty());
            assert(r@.display_lines =~= Seq::<chat::Shown>::empty());
        }
        r
    }

    /// Configure the overlay to target a specific agent.
    pub fn with_agent(self, id: String, name: String) -> (r: AgentOverlay)
        requires
            self.wf(),
        ensures
            r.wf(),
            r@ == (Chat { agent_id: Some(id@), agent_name: name@, ..self@ }),
    {
        let mut r = self;
        r.agent_id = Some(id);
        r.agent_name = name;
        r
    }

    /// Attach code selection context to prepend to the first message.
    pub fn with_context(self, code: String, info: String) -> (r: AgentOverlay)
        requires
            self.wf(),
        ensures
            r.wf(),
            r@ == (Chat { context_code: Some(code@), context_info: Some(info@), ..self@ }),
    {
        let mut r = self;
        r.context_code = Some(code);
        r.context_info = Some(info);
        r
    }

    /// Append a complete message to the conversation.
    pub fn push_message(&mut self, role: &str, content: &str)
        requires
            old(self).wf(),
        ensures
            final(self).wf(),
            final(self)@ == old(self)@.with_message(role@, content@),
    {
        let r = chars_of(role);
        let c = chars_of(content);
        let ghost before = self@.messages;
        self.messages.push(ChatMessage { role: string_of(&r), content: string_of(&c) });
        self.display_dirty = true;
        proof {
            assert(self@.messages =~= before.push(chat::Said { role: role@, content: content@ }));
        }
    }

    /// Append text to the last assistant message, or create one if needed.
    pub fn append_to_last(&mut self, text: &str)
        requires
            old(self).wf(),
        ensures
            final(self).wf(),
            final(self)@ == old(self)@.with_text(text@),
    {
        let n = self.messages.len();
        let ghost before = self@.messages;
        proof {
            assert(before.len() == n);
        }
        if n > 0 {
            proof {
                assert(before.last() == self.messages@[n - 1]@);
            }
            if same_str(self.messages[n - 1].role.as_str(), "assistant") {
                let role = self.messages[n - 1].role.clone();
                let mut t = chars_of(self.messages[n - 1].content.as_str());
                extend_str(&mut t, text);
                self.messages.set(n - 1, ChatMessage { role, content: string_of(&t) });
                self.display_dirty = true;
                proof {
                    assert(self@.messages =~= before.drop_last().push(
                        chat::Said { content: before.last().content + text@, ..before.last() },
                    ));
                }
                return;
            }
        }
        self.push_message("assistant", text);
    }

    /// Set the loading state (waiting for AI response).
    pub fn set_loading(&mut self, loading: bool)
        requires
            old(self).wf(),
        ensures
            final(self).wf(),
            final(self)@ == (Chat { loading, ..old(self)@ }),
    {
        self.loading = loading;
    }

    /// Count the total display lines (after word wrapping).
    pub fn total_output_lines(&self) -> (r: usize)
        ensures
            r == self@.display_lines.len(),
    {
        self.display_lines.len()
    }

    /// Recompute the display line cache from the current messages.
    ///
    /// Called lazily at the start of `render()` when the cache is dirty or the available width has
    /// changed. Assistant messages are parsed for markdown-like formatting (headers, bold, inline
    /// code, fenced code blocks, list items). User messages are rendered plain.
    pub fn recompute_display_lines(&mut self, width: u16, styles: &ChatStyles)
        requires
            old(self).wf(),
        ensures
            final(self).wf(),
            final(self)@ == (Chat {
                display_lines: chat::display(old(self)@.messages, width as int, *styles),
                cached_width: width as int,
                display_dirty: false,
                ..old(self)@
            }),
    {
        self.display_lines = display_lines(&self.messages, width, styles);
        self.cached_width = width;
        self.display_dirty = false;
    }

    fn outgoing_message(&self) -> (r: String)
        ensures
            r@ == self@.outgoing(),
    {
        match &self.context_code {
            Some(code) => {
                let mut t = chars_of("Context from ");
                match &self.context_info {
                    Some(info) => {
                        extend_str(&mut t, info.as_str());
                    },
                    None => {
                        proof {
                            assert(t@ + Seq::<char>::empty() =~= t@);
                        }
                    },
                }
                extend_str(&mut t, ":\n```\n");
                extend_str(&mut t, code.as_str());
                extend_str(&mut t, "\n```\n\n");
                extend(&mut t, &self.input.chars);
                string_of(&t)
            },
            None => self.input.text(),
        }
    }

    /// Sends the input, or says why it cannot be sent.
    fn submit(&mut self, connected: bool) -> (r: ChatAction)
        requires
            old(self).wf(),
            old(self)@.can_send(),
        ensures
            final(self).wf(),
            final(self)@ == chat_after(
                old(self)@,
                keys::plain(KeyCode::Enter),
                0,
                connected,
            ),
            r@ == (if connected {
                Asked::Send {
                    message: old(self)@.outgoing(),
                    session_id: old(self)@.session_id,
                    agent_id: old(self)@.agent_id,
                }
            } else {
                Asked::Consumed
            }),
    {
        let message = self.outgoing_message();
        self.input.clear();
        if self.context_code.is_some() {
            self.context_code = None;
            self.context_info = None;
        }
        self.push_message("user", message.as_str());
        self.loading = true;
        self.pinned_to_bottom = true;
        if connected {
            ChatAction::Send {
                message,
                session_id: copy_of(&self.session_id),
                agent_id: copy_of(&self.agent_id),
            }
        } else {
            self.loading = false;
            self.push_message("assistant", NOT_CONNECTED);
            ChatAction::Consumed
        }
    }

    fn scroll_down(&mut self, n: usize)
        requires
            old(self).wf(),
        ensures
            final(self).wf(),
            final(self)@ == old(self)@.scrolled_down(n as int),
    {
        self.scroll_offset = self.scroll_offset.saturating_add(n);
        if self.scroll_offset >= self.display_lines.len().saturating_sub(1) {
            self.pinned_to_bottom = true;
        }
    }

    fn scroll_up(&mut self, n: usize)
        requires
            old(self).wf(),
        ensures
            final(self).wf(),
            final(self)@ == old(self)@.scrolled_up(n as int),
    {
        self.scroll_offset = self.scroll_offset.saturating_sub(n);
        self.pinned_to_bottom = false;
    }

    fn handle_char(&mut self, key: Key, c: char)
        requires
            old(self).wf(),
            key.code == KeyCode::Char(c),
            key.types() ==> old(self).input.has_room(c),
        ensures
            final(self).wf(),
            final(self)@ == chat_after(old(self)@, key, 0, false),
    {
        if c == 'k' && key.modifiers.is_control() {
            self.scroll_up(1);
        } else if c == 'j' && key.modifiers.is_control() {
            self.scroll_down(1);
        } else if c == 'G' && key.modifiers.is_shift() {
            self.pinned_to_bottom = true;
        } else if key.is_typed() {
            self.input.insert(c);
        }
    }

    /// Answers an event. `pending` permission requests wait for review; `connected` says whether
    /// there is a server. Every key is consumed, so that none leaks to the editor below.
    pub fn handle_event(&mut self, event: &Event, pending: usize, connected: bool) -> (r: ChatAction)
        requires
            old(self).wf(),
            event matches Event::Key(key) ==> (key.code matches KeyCode::Char(c) ==> key.types()
                ==> old(self).input.has_room(c)),
        ensures
            final(self).wf(),
            match event {
                Event::Key(key) => final(self)@ == chat_after(
                    old(self)@,
                    *key,
                    pending as int,
                    connected,
                ) && r@ == asked_after(old(self)@, *key, pending as int, connected),
                _ => final(self)@ == old(self)@ && r@ == Asked::Ignored,
            },
    {
        let key = match event {
            Event::Key(key) => *key,
            _ => {
                return ChatAction::Ignored;
            },
        };
        match key.code {
            KeyCode::Esc => {
                return ChatAction::Close;
            },
            KeyCode::Enter => {
                if self.input.is_empty() {
                    if pending > 0 && connected {
                        return ChatAction::Review { queue_total: pending };
                    }
                } else if !self.loading {
                    return self.submit(connected);
                }
            },
            KeyCode::Char(c) => {
                self.handle_char(key, c);
            },
            KeyCode::Backspace => {
                self.input.backspace();
            },
            KeyCode::Left => {
                self.input.left();
            },
            KeyCode::Right => {
                self.input.right();
            },
            KeyCode::Home => {
                self.input.home();
            },
            KeyCode::End => {
                if key.modifiers.is_control() {
                    self.pinned_to_bottom = true;
                } else {
                    self.input.end();
                }
            },
            KeyCode::PageUp => {
                self.scroll_up(PAGE_LINES);
            },
            KeyCode::PageDown => {
                self.scroll_down(PAGE_LINES);
            },
            _ => {},
        }
        ChatAction::Consumed
    }
}

/// Every message is sent with the selected code at most once: after a message, none is left.
pub proof fn law_context_goes_with_one_message(c: Chat, next: input::Line)
    requires
        c.can_send(),
    ensures
        c.sent().context_code is None,
        (Chat { input: next, loading: false, ..c.sent() }).outgoing() == next.text,
{
}

/// While an answer is awaited nothing is sent: the enter key leaves the chat as it is.
pub proof fn law_nothing_is_sent_while_loading(c: Chat, key: Key, pending: int, connected: bool)
    requires
        c.loading,
        key.code == KeyCode::Enter,
    ensures
        chat_after(c, key, pending, connected) == c,
        !(asked_after(c, key, pending, connected) is Send),
{
}

/// No key is left to the editor below.
pub proof fn law_every_key_is_consumed(c: Chat, key: Key, pending: int, connected: bool)
    ensures
        !(asked_after(c, key, pending, connected) is Ignored),
{
}

/// A key that types its character, and Backspace after it: the character goes in at the cursor,
/// which moves on by the bytes that the character takes; Backspace then leaves the overlay as it
/// was. Both keys are consumed. `start`, `typed` and `erased` are the overlay before the two keys,
/// between them and behind them. The one character that has another meaning with shift is `G`.
pub proof fn law_backspace_undoes_a_typed_key(
    start: AgentOverlay,
    typed: AgentOverlay,
    erased: AgentOverlay,
    key: Key,
    backspace: Key,
    c: char,
    pending: int,
    connected: bool,
)
    requires
        start.wf(),
        typed.wf(),
        erased.wf(),
        key.code == KeyCode::Char(c),
        key.types(),
        !(c == 'G' && key.modifiers == keys::KeyModifiers::only_shift()),
        backspace.code == KeyCode::Backspace,
        typed@ == chat_after(start@, key, pending, connected),
        erased@ == chat_after(typed@, backspace, pending, connected),
    ensures
        typed@ == (Chat { input: typed@.input, ..start@ }),
        typed@.input.text == start@.input.text.take(start@.input.at) + seq![c]
            + start@.input.text.skip(start@.input.at),
        typed.input.cursor == start.input.cursor + bytes::char_bytes(c),
        erased@ == start@,
        erased.input.cursor == start.input.cursor,
        asked_after(start@, key, pending, connected) is Consumed,
        asked_after(typed@, backspace, pending, connected) is Consumed,
{
    let line = start@.input;
    start.input.lemma_cursor();
    typed.input.lemma_cursor();
    erased.input.lemma_cursor();
    input::law_backspace_undoes_typing(line, c);
    assert(typed@.input.text =~= line.text.take(line.at) + seq![c] + line.text.skip(line.at));
    assert(typed@.input.text.take(line.at + 1) =~= line.text.take(line.at).push(c));
    bytes::lemma_byte_len_push(line.text.take(line.at), c);
}

/// Enter with something typed sends it: the chat shows it as the user's, an answer is awaited and
/// the line is empty. Selected code goes in front of it, in a block of its own, under where it is
/// from. Without a server the chat says so instead, and nothing is awaited.
pub proof fn law_enter_sends_what_was_typed(c: Chat, key: Key, pending: int, connected: bool)
    requires
        key.code == KeyCode::Enter,
        c.input.text.len() > 0,
        !c.loading,
    ensures
        ({
            let after = chat_after(c, key, pending, connected);
            let asked = asked_after(c, key, pending, connected);
            let info = match c.context_info {
                Some(info) => info,
                None => Seq::empty(),
            };
            let message = match c.context_code {
                None => c.input.text,
                Some(code) => "Context from "@ + info + ":\n```\n"@ + code + "\n```\n\n"@
                    + c.input.text,
            };
            let shown = c.messages.push(chat::Said { role: "user"@, content: message });
            &&& after.input.text.len() == 0 && after.input.at == 0
            &&& after.context_code is None
            &&& after.pinned_to_bottom
            &&& after.display_dirty
            &&& after.session_id == c.session_id && after.agent_id == c.agent_id
            &&& connected ==> after.messages == shown && after.loading && asked == (Asked::Send {
                message,
                session_id: c.session_id,
                agent_id: c.agent_id,
            })
            &&& !connected ==> after.messages == shown.push(
                chat::Said {
                    role: "assistant"@,
                    content: "OpenCode server not connected. Run :ai-start first."@,
                },
            ) && !after.loading && asked is Consumed
        }),
{
}

/// Enter on an empty line opens the review of the requests that wait, where there are any and a
/// server; else, and while an answer is awaited, it does nothing. Escape closes the overlay. Neither
/// changes the chat.
pub proof fn law_enter_and_escape_on_an_empty_line(c: Chat, key: Key, pending: int, connected: bool)
    requires
        key.code == KeyCode::Esc || key.code == KeyCode::Enter && (c.input.text.len() == 0
            || c.loading),
    ensures
        chat_after(c, key, pending, connected) == c,
        key.code == KeyCode::Esc ==> asked_after(c, key, pending, connected) is Close,
        key.code == KeyCode::Enter && c.input.text.len() == 0 && pending > 0 && connected
            ==> asked_after(c, key, pending, connected) == (Asked::Review { queue_total: pending }),
        key.code == KeyCode::Enter && (c.input.text.len() > 0 || pending <= 0 || !connected)
            ==> asked_after(c, key, pending, connected) is Consumed,
{
}

/// The keys that move the cursor of the line keep its text: one character to the left or to the
/// right, as far as there are any, or to one of the ends.
pub proof fn law_keys_move_in_the_line(c: Chat, key: Key, pending: int, connected: bool)
    requires
        0 <= c.input.at <= c.input.text.len(),
    ensures
        ({
            let after = chat_after(c, key, pending, connected);
            let ctrl = key.modifiers.control && !key.modifiers.shift && !key.modifiers.alt
                && !key.modifiers.meta;
            let moved = |at: int| after == (Chat { input: input::Line { at, ..c.input }, ..c });
            &&& key.code == KeyCode::Left ==> moved(
                if c.input.at > 0 {
                    c.input.at - 1
                } else {
                    0
                },
            )
            &&& key.code == KeyCode::Right ==> moved(
                if c.input.at < c.input.text.len() {
                    c.input.at + 1
                } else {
                    c.input.at
                },
            )
            &&& key.code == KeyCode::Home ==> moved(0)
            &&& key.code == KeyCode::End && !ctrl ==> moved(c.input.text.len() as int)
        }),
{
}

/// The keys that scroll leave what is said and typed alone: control with k and j by a line, the page
/// keys by twenty, up to the first line; scrolling up lets go of the bottom, and control with End or
/// shift with G goes back to it.
pub proof fn law_keys_scroll_the_chat(c: Chat, key: Key, pending: int, connected: bool)
    requires
        0 <= c.scroll_offset <= usize::MAX - 20,
    ensures
        ({
            let after = chat_after(c, key, pending, connected);
            let m = key.modifiers;
            let ctrl = m.control && !m.shift && !m.alt && !m.meta;
            let shift = m.shift && !m.control && !m.alt && !m.meta;
            let up = |n: int|
                after == (Chat {
                    scroll_offset: if c.scroll_offset > n {
                        c.scroll_offset - n
                    } else {
                        0
                    },
                    pinned_to_bottom: false,
                    ..c
                });
            let down = |n: int|
                after == (Chat {
                    scroll_offset: c.scroll_offset + n,
                    pinned_to_bottom: c.pinned_to_bottom || c.scroll_offset + n
                        >= c.display_lines.len() - 1,
                    ..c
                });
            &&& key.code == KeyCode::PageUp ==> up(20)
            &&& key.code == KeyCode::PageDown ==> down(20)
            &&& key.code == KeyCode::Char('k') && ctrl ==> up(1)
            &&& key.code == KeyCode::Char('j') && ctrl ==> down(1)
            &&& key.code == KeyCode::Char('G') && shift || key.code == KeyCode::End && ctrl ==> after
                == (Chat { pinned_to_bottom: true, ..c })
        }),
{
}

/// Text of an answer joins what the assistant said last; where the assistant did not speak last it
/// is a message of its own.
pub proof fn law_text_joins_the_answer(
    c: Chat,
    before: Seq<chat::Said>,
    said: Seq<char>,
    text: Seq<char>,
)
    ensures
        c.messages == before.push(chat::Said { role: "assistant"@, content: said })
            ==> c.with_text(text).messages == before.push(
            chat::Said { role: "assistant"@, content: said + text },
        ),
        c.messages.len() == 0 ==> c.with_text(text).messages == seq![
            chat::Said { role: "assistant"@, content: text },
        ],
        c.messages.len() > 0 && c.messages.last().role != "assistant"@ ==> c.with_text(
            text,
        ).messages == c.messages.push(chat::Said { role: "assistant"@, content: text }),
        c.with_text(text).input == c.input,
        c.with_text(text).loading == c.loading,
        c.with_text(text).display_dirty,
{
    if c.messages == before.push(chat::Said { role: "assistant"@, content: said }) {
        assert(c.messages.drop_last() =~= before);
        assert(c.messages.last() == (chat::Said { role: "assistant"@, content: said }));
    }
    if c.messages.len() == 0 {
        assert(c.with_text(text).messages =~= seq![
            chat::Said { role: "assistant"@, content: text },
        ]);
    }
}

/// A new chat has no messages and nothing typed, awaits no answer and shows its end.
pub proof fn law_new_chat_is_empty()
    ensures
        Chat::blank().messages.len() == 0,
        Chat::blank().input.text.len() == 0,
        Chat::blank().input.at == 0,
        Chat::blank().scroll_offset == 0,
        !Chat::blank().loading,
        Chat::blank().session_id is None,
        Chat::blank().agent_id is None,
        Chat::blank().agent_name == "AI Agent"@,
        Chat::blank().display_lines.len() == 0,
        Chat::blank().cached_width == 0,
        Chat::blank().display_dirty,
        Chat::blank().pinned_to_bottom,
        Chat::blank().context_code is None,
        Chat::blank().context_info is None,
{
}

} // verus!
