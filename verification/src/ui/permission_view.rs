//! The review of an agent's edit: a diff with keys to approve, reject or give feedback.

use vstd::prelude::*;

use crate::lines;
use crate::lines::split_lines;
use crate::number;
use crate::number::decimal_text;
use crate::opencode::client::OpenCodeClient;
use crate::opencode::types::PermissionRequest;
use crate::text;
use crate::text::{chars_of, extend, extend_str, piece, starts_with, string_of};
use crate::ui::diff_lines;
use crate::ui::diff_lines::{count_changes, DiffLine};
use crate::ui::draw;
use crate::ui::hunks;
use crate::ui::hunks::{try_parse_and_compute_hunks, Hunk};
use crate::ui::input;
use crate::ui::input::LineInput;
use crate::ui::keys;
use crate::ui::keys::{Event, Key, KeyCode};
use crate::ui::unified;

verus! {

broadcast use vstd::string::group_string_axioms;

// ---------------------------------------------------------------------------------------------
// Coloured lines
// ---------------------------------------------------------------------------------------------

/// A single line in the rendered diff.
#[derive(Debug, Clone, PartialEq, Eq)]
pub enum PermDiffLine {
    /// Hunk header (e.g. `@@ -10,5 +20,7 @@ fn main`)
    Header(String),
    /// Unchanged context line
    Context(String),
    /// Added line
    Addition(String),
    /// Removed line
    Deletion(String),
}

/// A rendered line with its text as a character sequence.
pub enum Shown {
    Header(Seq<char>),
    Context(Seq<char>),
    Addition(Seq<char>),
    Deletion(Seq<char>),
}

impl View for PermDiffLine {
    type V = Shown;

    open spec fn view(&self) -> Shown {
        match *self {
            PermDiffLine::Header(s) => Shown::Header(s@),
            PermDiffLine::Context(s) => Shown::Context(s@),
            PermDiffLine::Addition(s) => Shown::Addition(s@),
            PermDiffLine::Deletion(s) => Shown::Deletion(s@),
        }
    }
}

/// The rendered lines behind a vector.
pub open spec fn shown(v: Seq<PermDiffLine>) -> Seq<Shown> {
    v.map_values(|l: PermDiffLine| l@)
}

/// What a line of a diff is shown as; lines of its head are not shown.
pub open spec fn shown_line(line: Seq<char>) -> Option<Shown> {
    if text::has_prefix(line, "@@"@) {
        Some(Shown::Header(line))
    } else if text::has_prefix(line, "+"@) && !text::has_prefix(line, "+++"@) {
        Some(Shown::Addition(line.skip(1)))
    } else if text::has_prefix(line, "-"@) && !text::has_prefix(line, "---"@) {
        Some(Shown::Deletion(line.skip(1)))
    } else if text::has_prefix(line, " "@) {
        Some(Shown::Context(line.skip(1)))
    } else if text::has_prefix(line, "diff "@) || text::has_prefix(line, "index "@)
        || text::has_prefix(line, "---"@) || text::has_prefix(line, "+++"@) {
        None
    } else {
        Some(Shown::Context(line))
    }
}

/// What the lines of a diff are shown as.
pub open spec fn shown_lines(ls: Seq<Seq<char>>) -> Seq<Shown>
    decreases ls.len(),
{
    if ls.len() == 0 {
        Seq::empty()
    } else {
        match shown_line(ls.last()) {
            Some(l) => shown_lines(ls.drop_last()).push(l),
            None => shown_lines(ls.drop_last()),
        }
    }
}

/// How many of the lines are additions.
pub open spec fn additions_shown(v: Seq<Shown>) -> nat
    decreases v.len(),
{
    if v.len() == 0 {
        0
    } else {
        additions_shown(v.drop_last()) + if v.last() is Addition {
            1nat
        } else {
            0
        }
    }
}

/// How many of the lines are deletions.
pub open spec fn deletions_shown(v: Seq<Shown>) -> nat
    decreases v.len(),
{
    if v.len() == 0 {
        0
    } else {
        deletions_shown(v.drop_last()) + if v.last() is Deletion {
            1nat
        } else {
            0
        }
    }
}

fn tail(t: &Vec<char>) -> (r: String)
    requires
        t@.len() > 0,
    ensures
        r@ == t@.skip(1),
{
    let p = piece(t, 1, t.len());
    proof {
        assert(p@ =~= t@.skip(1));
    }
    string_of(&p)
}

fn show_line(t: &Vec<char>) -> (r: Option<PermDiffLine>)
    ensures
        match r {
            Some(l) => shown_line(t@) == Some(l@),
            None => shown_line(t@) is None,
        },
{
    proof {
        reveal_strlit("+");
        reveal_strlit("-");
        reveal_strlit(" ");
    }
    if starts_with(t, "@@") {
        Some(PermDiffLine::Header(string_of(t)))
    } else if starts_with(t, "+") && !starts_with(t, "+++") {
        Some(PermDiffLine::Addition(tail(t)))
    } else if starts_with(t, "-") && !starts_with(t, "---") {
        Some(PermDiffLine::Deletion(tail(t)))
    } else if starts_with(t, " ") {
        Some(PermDiffLine::Context(tail(t)))
    } else if starts_with(t, "diff ") || starts_with(t, "index ") || starts_with(t, "---")
        || starts_with(t, "+++") {
        None
    } else {
        Some(PermDiffLine::Context(string_of(t)))
    }
}

// ---------------------------------------------------------------------------------------------
// The view
// ---------------------------------------------------------------------------------------------

/// Full-screen component that displays a colored unified diff for an agent's proposed edit, with
/// keyboard shortcuts to approve, reject, or provide feedback before rejecting.
pub struct PermissionDiffView {
    /// Permission request ID used when replying to the server.
    pub permission_id: String,
    /// File being edited (displayed in the header).
    pub file_path: String,
    /// Queue position (1-indexed) when multiple permissions are pending.
    pub queue_position: usize,
    /// Total number of pending permissions.
    pub queue_total: usize,
    /// The diff lines to show.
    pub diff_lines: Vec<DiffLine>,
    /// Vertical scroll offset into `diff_lines`.
    pub scroll_offset: usize,
    /// Number of added lines in the diff.
    pub additions: usize,
    /// Number of removed lines in the diff.
    pub deletions: usize,
    /// When `true`, the footer shows a text input for rejection feedback.
    pub feedback_mode: bool,
    /// The text the user is typing as rejection feedback.
    pub feedback: LineInput,
    /// OpenCode HTTP client for sending the reply.
    pub client: OpenCodeClient,
    /// Original permission request, kept so Esc can re-queue it.
    pub request: PermissionRequest,
    /// Whether this view was opened from the agent overlay (affects Esc hint).
    pub from_overlay: bool,
}

/// The state of the view that keys change.
pub struct Review {
    pub scroll_offset: int,
    pub feedback_mode: bool,
    pub feedback: input::Line,
}

/// What the view asks for after an event.
#[derive(Debug, Clone, PartialEq, Eq)]
pub enum ReviewAction {
    /// The event is not for the view.
    Ignored,
    /// The event is dealt with.
    Consumed,
    /// Close the view and put the request back at the front of the queue.
    Defer,
    /// Close the view, show the status and send the reply. Where `always` is set, permission
    /// requests are approved from now on without asking.
    Reply { reply: String, message: Option<String>, status: String, always: bool },
}

/// An action with its texts as character sequences.
pub enum Asked {
    Ignored,
    Consumed,
    Defer,
    Reply { reply: Seq<char>, message: Option<Seq<char>>, status: Seq<char>, always: bool },
}

impl View for ReviewAction {
    type V = Asked;

    open spec fn view(&self) -> Asked {
        match *self {
            ReviewAction::Ignored => Asked::Ignored,
            ReviewAction::Consumed => Asked::Consumed,
            ReviewAction::Defer => Asked::Defer,
            ReviewAction::Reply { reply, message, status, always } => Asked::Reply {
                reply: reply@,
                message: text::opt_string(message),
                status: status@,
                always,
            },
        }
    }
}

/// The offset moved down by `n` lines, but not behind the last of `total`.
pub open spec fn moved_down(offset: int, n: int, total: int) -> int {
    draw::least(draw::least(offset + n, usize::MAX as int), draw::less(total, 1))
}

/// The review after a key, with `total` lines to show.
pub open spec fn review_after(r: Review, key: Key, total: int) -> Review {
    let bare = key.modifiers == keys::KeyModifiers::nothing();
    let ctrl = key.modifiers == keys::KeyModifiers::only_control();
    if r.feedback_mode {
        match key.code {
            KeyCode::Esc => Review { feedback_mode: false, feedback: input::Line::blank(), ..r },
            KeyCode::Char(c) => if key.types() {
                Review { feedback: r.feedback.typed(c), ..r }
            } else {
                r
            },
            KeyCode::Backspace => Review { feedback: r.feedback.erased(), ..r },
            _ => r,
        }
    } else {
        match key.code {
            KeyCode::Char(c) => if c == 'X' {
                Review { feedback_mode: true, ..r }
            } else if c == 'j' {
                Review { scroll_offset: moved_down(r.scroll_offset, 1, total), ..r }
            } else if c == 'k' {
                Review { scroll_offset: draw::less(r.scroll_offset, 1), ..r }
            } else if c == 'd' && ctrl {
                Review { scroll_offset: moved_down(r.scroll_offset, 20, total), ..r }
            } else if c == 'u' && ctrl {
                Review { scroll_offset: draw::less(r.scroll_offset, 20), ..r }
            } else if c == 'G' {
                Review { scroll_offset: draw::less(total, 1), ..r }
            } else if c == 'g' && bare {
                Review { scroll_offset: 0, ..r }
            } else {
                r
            },
            KeyCode::Down => Review { scroll_offset: moved_down(r.scroll_offset, 1, total), ..r },
            KeyCode::Up => Review { scroll_offset: draw::less(r.scroll_offset, 1), ..r },
            _ => r,
        }
    }
}

/// What the view of an edit to `file` asks for after a key.
pub open spec fn asked_after(r: Review, key: Key, file: Seq<char>) -> Asked {
    let bare = key.modifiers == keys::KeyModifiers::nothing();
    if r.feedback_mode {
        match key.code {
            KeyCode::Enter => Asked::Reply {
                reply: "reject"@,
                message: Some(r.feedback.text),
                status: "✗ Rejected edit to "@ + file + " (with feedback)"@,
                always: false,
            },
            _ => Asked::Consumed,
        }
    } else {
        match key.code {
            KeyCode::Esc => Asked::Defer,
            KeyCode::Char(c) => if c == 'a' && bare {
                Asked::Reply {
                    reply: "once"@,
                    message: None,
                    status: "✓ Approved edit to "@ + file,
                    always: false,
                }
            } else if c == 'A' {
                Asked::Reply {
                    reply: "always"@,
                    message: None,
                    status: "✓ Always approve — edit applied to "@ + file,
                    always: true,
                }
            } else if c == 'x' && bare {
                Asked::Reply {
                    reply: "reject"@,
                    message: None,
                    status: "✗ Rejected edit to "@ + file,
                    always: false,
                }
            } else {
                Asked::Consumed
            },
            _ => Asked::Consumed,
        }
    }
}

fn reply_action(reply: &str, message: Option<String>, a: &str, file: &str, b: &str, always: bool) -> (r:
    ReviewAction)
    ensures
        r@ == (Asked::Reply {
            reply: reply@,
            message: text::opt_string(message),
            status: a@ + file@ + b@,
            always,
        }),
{
    let mut t = chars_of(a);
    extend_str(&mut t, file);
    extend_str(&mut t, b);
    let reply_text = chars_of(reply);
    ReviewAction::Reply { reply: string_of(&reply_text), message, status: string_of(&t), always }
}

fn approval(reply: &str, a: &str, file: &str, always: bool) -> (r: ReviewAction)
    ensures
        r@ == (Asked::Reply { reply: reply@, message: None, status: a@ + file@, always }),
{
    let r = reply_action(reply, None, a, file, "", always);
    proof {
        reveal_strlit("");
        assert(a@ + file@ + ""@ =~= a@ + file@);
    }
    r
}

/// What the status line says after a request was put back, with `pending` of them waiting.
pub fn deferred_status(pending: usize) -> (r: String)
    ensures
        r@ == "Deferred — "@ + number::decimal(pending as nat) + " permission(s) pending"@,
{
    let mut t = chars_of("Deferred — ");
    let n = decimal_text(pending as u64);
    extend(&mut t, &n);
    extend_str(&mut t, " permission(s) pending");
    string_of(&t)
}

/// What the status line says where a reply could not be sent.
pub fn reply_failure(error: &str) -> (r: String)
    ensures
        r@ == "Permission reply failed: "@ + error@,
{
    let mut t = chars_of("Permission reply failed: ");
    extend_str(&mut t, error);
    string_of(&t)
}

/// The diff that a request proposes: the one in its metadata, if any.
pub open spec fn proposed_diff(request: PermissionRequest) -> Seq<char> {
    match request.patch() {
        Some(d) => d,
        None => Seq::empty(),
    }
}

/// The edit that a request proposes: the text before, the text after and what differs, where the
/// two can be compared.
pub fn proposed_edit(request: &PermissionRequest) -> (r: Option<(ropey::Rope, ropey::Rope, Vec<Hunk>)>)
    ensures
        r is Some <==> hunks::comparable(
            unified::both_sides(proposed_diff(*request)).0,
            unified::both_sides(proposed_diff(*request)).1,
        ),
        r matches Some(found) ==> {
            let sides = unified::both_sides(proposed_diff(*request));
            let old_lines = hunks::line_pieces(sides.0);
            let new_lines = hunks::line_pieces(sides.1);
            &&& (hunks::rope_text(found.0), hunks::rope_text(found.1)) == sides
            &&& hunks::all_bounds(found.2@) == hunks::histogram_hunks(old_lines, new_lines)
            &&& hunks::turns_into(old_lines, new_lines, hunks::all_bounds(found.2@), 0, 0)
            &&& sides.0 == sides.1 ==> found.2@.len() == 0
        },
{
    match request.diff() {
        Some(d) => try_parse_and_compute_hunks(d.as_str()),
        None => {
            let r = try_parse_and_compute_hunks("");
            proof {
                reveal_strlit("");
                assert(""@ =~= Seq::<char>::empty());
            }
            r
        },
    }
}

impl PermissionDiffView {
    /// The state that keys change.
    pub open spec fn review(&self) -> Review {
        Review {
            scroll_offset: self.scroll_offset as int,
            feedback_mode: self.feedback_mode,
            feedback: self.feedback@,
        }
    }

    /// The cursor of the feedback line is in place, and the counts are those of the lines.
    pub open spec fn wf(&self) -> bool {
        &&& self.feedback.wf()
        &&& self.additions == diff_lines::addition_count(self.diff_lines@)
        &&& self.deletions == diff_lines::deletion_count(self.diff_lines@)
        &&& self.scroll_offset <= draw::less(self.diff_lines@.len() as int, 1)
    }

    /// Whether all but the state that keys change is the same.
    pub open spec fn same_edit(&self, other: &PermissionDiffView) -> bool {
        &&& self.permission_id == other.permission_id
        &&& self.file_path == other.file_path
        &&& self.queue_position == other.queue_position
        &&& self.queue_total == other.queue_total
        &&& self.diff_lines == other.diff_lines
        &&& self.additions == other.additions
        &&& self.deletions == other.deletions
        &&& self.client == other.client
        &&& self.request == other.request
        &&& self.from_overlay == other.from_overlay
    }

    /// A view of the edit that `request` proposes, as the `queue_position`-th of `queue_total`.
    /// `diff_lines` are the lines of its diff.
    pub fn new(
        request: PermissionRequest,
        client: OpenCodeClient,
        queue_position: usize,
        queue_total: usize,
        diff_lines: Vec<DiffLine>,
    ) -> (r: PermissionDiffView)
        ensures
            r.wf(),
            r.permission_id@ == request.id@,
            r.file_path@ == request.name(),
            r.queue_position == queue_position,
            r.queue_total == queue_total,
            r.diff_lines == diff_lines,
            r.client == client,
            r.request == request,
            !r.from_overlay,
            r.review() == (Review {
                scroll_offset: 0,
                feedback_mode: false,
                feedback: input::Line::blank(),
            }),
    {
        let file_path = request.display_name();
        let (additions, deletions) = count_changes(&diff_lines);
        PermissionDiffView {
            permission_id: request.id.clone(),
            file_path,
            queue_position,
            queue_total,
            diff_lines,
            scroll_offset: 0,
            additions,
            deletions,
            feedback_mode: false,
            feedback: LineInput::new(),
            client,
            request,
            from_overlay: false,
        }
    }

    /// Mark this view as opened from the agent overlay chat.
    pub fn with_from_overlay(self) -> (r: PermissionDiffView)
        requires
            self.wf(),
        ensures
            r.wf(),
            r == (PermissionDiffView { from_overlay: true, ..self }),
    {
        let mut r = self;
        r.from_overlay = true;
        r
    }

    /// Parse a unified diff string into colored display lines, returning
    /// `(lines, addition_count, deletion_count)`.
    pub fn parse_diff_lines(diff_text: &str) -> (r: (Vec<PermDiffLine>, usize, usize))
        ensures
            shown(r.0@) == shown_lines(lines::lines(diff_text@)),
            r.1 == additions_shown(shown(r.0@)),
            r.2 == deletions_shown(shown(r.0@)),
    {
        let t = chars_of(diff_text);
        let ls = split_lines(&t);
        let ghost all = lines::lines(diff_text@);
        let mut out: Vec<PermDiffLine> = Vec::new();
        let mut additions: usize = 0;
        let mut deletions: usize = 0;
        let mut i: usize = 0;
        proof {
            assert(all.take(0) =~= Seq::<Seq<char>>::empty());
            assert(shown(out@) =~= Seq::<Shown>::empty());
        }
        while i < ls.len()
            invariant
                i <= ls.len(),
                text::texts(ls@) == all,
                additions + deletions <= i,
                shown(out@) == shown_lines(all.take(i as int)),
                additions == additions_shown(shown(out@)),
                deletions == deletions_shown(shown(out@)),
            decreases ls@.len() - i,
        {
            proof {
                assert(all[i as int] == ls@[i as int]@);
                assert(all.take(i + 1).drop_last() =~= all.take(i as int));
                assert(all.take(i + 1).last() == all[i as int]);
            }
            let ghost before = shown(out@);
            match show_line(&ls[i]) {
                Some(line) => {
                    match &line {
                        PermDiffLine::Addition(_) => {
                            additions = additions + 1;
                        },
                        PermDiffLine::Deletion(_) => {
                            deletions = deletions + 1;
                        },
                        _ => {},
                    }
                    out.push(line);
                    proof {
                        assert(shown(out@) =~= before.push(line@));
                        assert(shown(out@).drop_last() =~= before);
                    }
                },
                None => {},
            }
            i = i + 1;
        }
        proof {
            assert(all.take(i as int) =~= all);
        }
        (out, additions, deletions)
    }

    /// Maximum number of diff lines that can scroll past the bottom.
    pub fn max_scroll(&self, visible_height: usize) -> (r: usize)
        ensures
            r == draw::less(self.diff_lines@.len() as int, visible_height as int),
    {
        self.diff_lines.len().saturating_sub(visible_height)
    }

    fn scroll_down(&mut self, n: usize)
        requires
            old(self).wf(),
        ensures
            final(self).wf(),
            final(self).same_edit(old(self)),
            final(self).review() == (Review {
                scroll_offset: moved_down(
                    old(self).scroll_offset as int,
                    n as int,
                    old(self).diff_lines@.len() as int,
                ),
                ..old(self).review()
            }),
    {
        let last: usize = self.diff_lines.len().saturating_sub(1);
        let moved: usize = self.scroll_offset.saturating_add(n);
        self.scroll_offset = if moved <= last {
            moved
        } else {
            last
        };
    }

    fn handle_feedback(&mut self, key: Key) -> (r: ReviewAction)
        requires
            old(self).wf(),
            old(self).feedback_mode,
            key.code matches KeyCode::Char(c) ==> key.types() ==> old(self).feedback.has_room(c),
        ensures
            final(self).wf(),
            final(self).same_edit(old(self)),
            final(self).review() == review_after(
                old(self).review(),
                key,
                old(self).diff_lines@.len() as int,
            ),
            r@ == asked_after(old(self).review(), key, old(self).file_path@),
    {
        match key.code {
            KeyCode::Esc => {
                self.feedback_mode = false;
                self.feedback.clear();
            },
            KeyCode::Enter => {
                let feedback = self.feedback.text();
                return reply_action(
                    "reject",
                    Some(feedback),
                    "✗ Rejected edit to ",
                    self.file_path.as_str(),
                    " (with feedback)",
                    false,
                );
            },
            KeyCode::Char(c) => {
                if key.is_typed() {
                    self.feedback.insert(c);
                }
            },
            KeyCode::Backspace => {
                self.feedback.backspace();
            },
            _ => {},
        }
        ReviewAction::Consumed
    }

    fn handle_char(&mut self, key: Key, c: char) -> (r: ReviewAction)
        requires
            old(self).wf(),
            !old(self).feedback_mode,
            key.code == KeyCode::Char(c),
        ensures
            final(self).wf(),
            final(self).same_edit(old(self)),
            final(self).review() == review_after(
                old(self).review(),
                key,
                old(self).diff_lines@.len() as int,
            ),
            r@ == asked_after(old(self).review(), key, old(self).file_path@),
    {
        if c == 'a' && key.modifiers.is_empty() {
            return approval("once", "✓ Approved edit to ", self.file_path.as_str(), false);
        }
        if c == 'A' {
            return approval(
                "always",
                "✓ Always approve — edit applied to ",
                self.file_path.as_str(),
                true,
            );
        }
        if c == 'x' && key.modifiers.is_empty() {
            return approval("reject", "✗ Rejected edit to ", self.file_path.as_str(), false);
        }
        if c == 'X' {
            self.feedback_mode = true;
        } else if c == 'j' {
            self.scroll_down(1);
        } else if c == 'k' {
            self.scroll_offset = self.scroll_offset.saturating_sub(1);
        } else if c == 'd' && key.modifiers.is_control() {
            self.scroll_down(20);
        } else if c == 'u' && key.modifiers.is_control() {
            self.scroll_offset = self.scroll_offset.saturating_sub(20);
        } else if c == 'G' {
            self.scroll_offset = self.diff_lines.len().saturating_sub(1);
        } else if c == 'g' && key.modifiers.is_empty() {
            self.scroll_offset = 0;
        }
        ReviewAction::Consumed
    }

    /// Answers an event. Every key is consumed, so that none leaks to the editor below.
    pub fn handle_event(&mut self, event: &Event) -> (r: ReviewAction)
        requires
            old(self).wf(),
            old(self).feedback_mode ==> (event matches Event::Key(key) ==> (
            key.code matches KeyCode::Char(c) ==> key.types() ==> old(self).feedback.has_room(c))),
        ensures
            final(self).wf(),
            final(self).same_edit(old(self)),
            match event {
                Event::Key(key) => final(self).review() == review_after(
                    old(self).review(),
                    *key,
                    old(self).diff_lines@.len() as int,
                ) && r@ == asked_after(old(self).review(), *key, old(self).file_path@),
                _ => final(self).review() == old(self).review() && r@ == Asked::Ignored,
            },
    {
        let key = match event {
            Event::Key(key) => *key,
            _ => {
                return ReviewAction::Ignored;
            },
        };
        if self.feedback_mode {
            return self.handle_feedback(key);
        }
        match key.code {
            KeyCode::Esc => ReviewAction::Defer,
            KeyCode::Char(c) => self.handle_char(key, c),
            KeyCode::Down => {
                self.scroll_down(1);
                ReviewAction::Consumed
            },
            KeyCode::Up => {
                self.scroll_offset = self.scroll_offset.saturating_sub(1);
                ReviewAction::Consumed
            },
            _ => ReviewAction::Consumed,
        }
    }
}

/// Leaving the feedback forgets it: coming back to it starts anew, with the diff where it was.
pub proof fn law_cancelled_feedback_is_forgotten(r: Review, total: int, again: Key)
    requires
        r.feedback_mode,
        again.code == KeyCode::Char('X'),
    ensures
        ({
            let left = review_after(r, keys::plain(KeyCode::Esc), total);
            &&& !left.feedback_mode
            &&& review_after(left, again, total) == (Review {
                feedback: input::Line::blank(),
                ..r
            })
        }),
{
}

/// While feedback is typed nothing is approved: letters are text, and the only reply is a rejection.
pub proof fn law_no_approval_while_typing(r: Review, key: Key, file: Seq<char>)
    requires
        r.feedback_mode,
    ensures
        asked_after(r, key, file) matches Asked::Reply { reply, always, .. } ==> reply == "reject"@
            && !always,
{
}

/// Typed feedback is sent as it was typed.
pub proof fn law_feedback_is_sent(r: Review, file: Seq<char>)
    requires
        r.feedback_mode,
    ensures
        asked_after(r, keys::plain(KeyCode::Enter), file) matches Asked::Reply { reply, message, .. }
            && reply == "reject"@ && message == Some(r.feedback.text),
{
}

/// The keys that answer the request: a approves it once, A from now on, x rejects it, and Escape puts
/// it back. What is said of the answer names the file. None of them changes the view.
pub proof fn law_keys_answer_the_request(r: Review, key: Key, file: Seq<char>, total: int)
    requires
        !r.feedback_mode,
    ensures
        ({
            let asked = asked_after(r, key, file);
            let m = key.modifiers;
            let bare = !m.shift && !m.control && !m.alt && !m.meta;
            &&& key.code == KeyCode::Char('a') && bare ==> asked == (Asked::Reply {
                reply: "once"@,
                message: None,
                status: "✓ Approved edit to "@ + file,
                always: false,
            })
            &&& key.code == KeyCode::Char('A') ==> asked == (Asked::Reply {
                reply: "always"@,
                message: None,
                status: "✓ Always approve — edit applied to "@ + file,
                always: true,
            })
            &&& key.code == KeyCode::Char('x') && bare ==> asked == (Asked::Reply {
                reply: "reject"@,
                message: None,
                status: "✗ Rejected edit to "@ + file,
                always: false,
            })
            &&& key.code == KeyCode::Esc ==> asked is Defer
            &&& asked is Reply || asked is Defer ==> review_after(r, key, total) == r
            &&& asked is Reply ==> key.code == KeyCode::Char('a') || key.code == KeyCode::Char('A')
                || key.code == KeyCode::Char('x')
            &&& asked is Defer ==> key.code == KeyCode::Esc
        }),
{
}

/// The keys that scroll the diff: j and Down by a line, k and Up back by one, control with d and u by
/// twenty, G to the last line and g to the first; never past an end. They ask for nothing.
pub proof fn law_keys_scroll_the_diff(r: Review, key: Key, file: Seq<char>, total: int)
    requires
        !r.feedback_mode,
        0 <= r.scroll_offset < total,
        total <= usize::MAX - 20,
    ensures
        ({
            let m = key.modifiers;
            let ctrl = m.control && !m.shift && !m.alt && !m.meta;
            let bare = !m.shift && !m.control && !m.alt && !m.meta;
            let after = review_after(r, key, total);
            let at = |offset: int| after == (Review { scroll_offset: offset, ..r });
            let down = |n: int|
                at(
                    if r.scroll_offset + n < total {
                        r.scroll_offset + n
                    } else {
                        total - 1
                    },
                );
            let up = |n: int|
                at(
                    if r.scroll_offset >= n {
                        r.scroll_offset - n
                    } else {
                        0
                    },
                );
            &&& key.code == KeyCode::Char('j') || key.code == KeyCode::Down ==> down(1)
            &&& key.code == KeyCode::Char('k') || key.code == KeyCode::Up ==> up(1)
            &&& key.code == KeyCode::Char('d') && ctrl ==> down(20)
            &&& key.code == KeyCode::Char('u') && ctrl ==> up(20)
            &&& key.code == KeyCode::Char('G') ==> at(total - 1)
            &&& key.code == KeyCode::Char('g') && bare ==> at(0)
            &&& key.code == KeyCode::Char('X') ==> after == (Review { feedback_mode: true, ..r })
            &&& after != r ==> asked_after(r, key, file) is Consumed
        }),
{
}

/// While feedback is typed, characters go in at the cursor, Backspace takes the one before it, Enter
/// sends and Escape leaves; the diff stays where it is.
pub proof fn law_keys_type_the_feedback(r: Review, key: Key, file: Seq<char>, total: int, c: char)
    requires
        r.feedback_mode,
        0 <= r.feedback.at <= r.feedback.text.len(),
    ensures
        ({
            let after = review_after(r, key, total);
            let line = r.feedback;
            &&& after.scroll_offset == r.scroll_offset
            &&& key.code == KeyCode::Char(c) && !key.modifiers.control && !key.modifiers.alt
                && !key.modifiers.meta ==> after.feedback_mode && after.feedback.at == line.at + 1
                && after.feedback.text == line.text.take(line.at) + seq![c] + line.text.skip(line.at)
            &&& key.code == KeyCode::Backspace && line.at > 0 ==> after.feedback_mode
                && after.feedback.at == line.at - 1 && after.feedback.text == line.text.take(
                line.at - 1,
            ) + line.text.skip(line.at)
            &&& key.code == KeyCode::Backspace && line.at == 0 ==> after == r
            &&& key.code == KeyCode::Esc ==> !after.feedback_mode && after.feedback.text.len() == 0
                && after.feedback.at == 0
            &&& key.code == KeyCode::Enter ==> after == r && asked_after(r, key, file) == (
            Asked::Reply {
                reply: "reject"@,
                message: Some(line.text),
                status: "✗ Rejected edit to "@ + file + " (with feedback)"@,
                always: false,
            })
            &&& key.code != KeyCode::Enter ==> asked_after(r, key, file) is Consumed
        }),
{
    let line = r.feedback;
    assert(line.text.insert(line.at, c) =~= line.text.take(line.at) + seq![c] + line.text.skip(
        line.at,
    ));
    if line.at > 0 {
        assert(line.text.remove(line.at - 1) =~= line.text.take(line.at - 1) + line.text.skip(
            line.at,
        ));
    }
}

proof fn lemma_signs()
    ensures
        "@@"@ == seq!['@', '@'],
        "+"@ == seq!['+'],
        "-"@ == seq!['-'],
        " "@ == seq![' '],
        "+++"@ == seq!['+', '+', '+'],
        "---"@ == seq!['-', '-', '-'],
        "diff "@ == seq!['d', 'i', 'f', 'f', ' '],
        "index "@ == seq!['i', 'n', 'd', 'e', 'x', ' '],
{
    reveal_strlit("@@");
    reveal_strlit("+");
    reveal_strlit("-");
    reveal_strlit(" ");
    reveal_strlit("+++");
    reveal_strlit("---");
    reveal_strlit("diff ");
    reveal_strlit("index ");
    assert("@@"@ =~= seq!['@', '@']);
    assert("+"@ =~= seq!['+']);
    assert("-"@ =~= seq!['-']);
    assert(" "@ =~= seq![' ']);
    assert("+++"@ =~= seq!['+', '+', '+']);
    assert("---"@ =~= seq!['-', '-', '-']);
    assert("diff "@ =~= seq!['d', 'i', 'f', 'f', ' ']);
    assert("index "@ =~= seq!['i', 'n', 'd', 'e', 'x', ' ']);
}

proof fn lemma_starts(p: Seq<char>, s: Seq<char>)
    ensures
        text::has_prefix(p + s, p),
        (p + s).skip(p.len() as int) == s,
{
    assert((p + s).take(p.len() as int) =~= p);
    assert((p + s).skip(p.len() as int) =~= s);
}

proof fn lemma_starts_otherwise(s: Seq<char>, p: Seq<char>)
    requires
        p.len() > 0,
        s.len() == 0 || s[0] != p[0],
    ensures
        !text::has_prefix(s, p),
{
    if text::has_prefix(s, p) {
        assert(s.take(p.len() as int)[0] == s[0]);
    }
}

/// What a line of a diff is shown as: behind a plus an addition, behind a minus a deletion, behind a
/// blank a line that stays, each without its sign; a line with two at signs is a header, whole. The
/// lines that head a file are not shown.
pub proof fn law_signs_tell_the_lines(s: Seq<char>)
    ensures
        !text::has_prefix(s, seq!['+', '+']) ==> shown_line(seq!['+'] + s) == Some(
            Shown::Addition(s),
        ),
        !text::has_prefix(s, seq!['-', '-']) ==> shown_line(seq!['-'] + s) == Some(
            Shown::Deletion(s),
        ),
        shown_line(seq![' '] + s) == Some(Shown::Context(s)),
        shown_line(seq!['@', '@'] + s) == Some(Shown::Header(seq!['@', '@'] + s)),
        shown_line(seq!['-', '-', '-'] + s) is None,
        shown_line(seq!['+', '+', '+'] + s) is None,
        shown_line("diff "@ + s) is None,
        shown_line("index "@ + s) is None,
        shown_line(Seq::empty()) == Some(Shown::Context(Seq::empty())),
{
    lemma_signs();
    let plus = seq!['+'] + s;
    let minus = seq!['-'] + s;
    let blank = seq![' '] + s;
    lemma_starts(seq!['+'], s);
    lemma_starts(seq!['-'], s);
    lemma_starts(seq![' '], s);
    lemma_starts(seq!['@', '@'], s);
    lemma_starts(seq!['+', '+', '+'], s);
    lemma_starts(seq!['-', '-', '-'], s);
    lemma_starts("diff "@, s);
    lemma_starts("index "@, s);
    lemma_starts_otherwise(plus, "@@"@);
    lemma_starts_otherwise(minus, "@@"@);
    lemma_starts_otherwise(minus, "+"@);
    lemma_starts_otherwise(minus, "+++"@);
    lemma_starts_otherwise(blank, "@@"@);
    lemma_starts_otherwise(blank, "+"@);
    lemma_starts_otherwise(blank, "-"@);
    if text::has_prefix(plus, seq!['+', '+', '+']) {
        assert(s.take(2) =~= seq!['+', '+']) by {
            assert(s[0] == plus.take(3)[1] && s[1] == plus.take(3)[2]);
        }
    }
    if text::has_prefix(minus, seq!['-', '-', '-']) {
        assert(s.take(2) =~= seq!['-', '-']) by {
            assert(s[0] == minus.take(3)[1] && s[1] == minus.take(3)[2]);
        }
    }
    let three = seq!['-', '-', '-'] + s;
    lemma_starts_otherwise(three, "@@"@);
    lemma_starts_otherwise(three, "+"@);
    lemma_starts_otherwise(three, " "@);
    let pluses = seq!['+', '+', '+'] + s;
    lemma_starts_otherwise(pluses, "@@"@);
    lemma_starts_otherwise(pluses, "-"@);
    lemma_starts_otherwise(pluses, " "@);
    let head = "diff "@ + s;
    let index = "index "@ + s;
    lemma_starts_otherwise(head, "@@"@);
    lemma_starts_otherwise(head, "+"@);
    lemma_starts_otherwise(head, "-"@);
    lemma_starts_otherwise(head, " "@);
    lemma_starts_otherwise(index, "@@"@);
    lemma_starts_otherwise(index, "+"@);
    lemma_starts_otherwise(index, "-"@);
    lemma_starts_otherwise(index, " "@);
}

/// The lines are shown in order, each by itself, and the counts are of those shown.
pub proof fn law_lines_are_shown_in_order(a: Seq<Seq<char>>, line: Seq<char>, v: Seq<Shown>)
    ensures
        shown_lines(a.push(line)) == shown_lines(a) + (match shown_line(line) {
            Some(l) => seq![l],
            None => Seq::empty(),
        }),
        shown_lines(Seq::empty()).len() == 0,
        additions_shown(v) == v.filter(|l: Shown| l is Addition).len(),
        deletions_shown(v) == v.filter(|l: Shown| l is Deletion).len(),
    decreases v.len(),
{
    assert(a.push(line).drop_last() =~= a);
    assert(shown_lines(a.push(line)) =~= shown_lines(a) + (match shown_line(line) {
        Some(l) => seq![l],
        None => Seq::empty(),
    }));
    reveal(Seq::filter);
    if v.len() > 0 {
        law_lines_are_shown_in_order(a, line, v.drop_last());
    }
}

} // verus!
