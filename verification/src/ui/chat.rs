//! The messages of a chat and the lines they are shown as.

use vstd::prelude::*;

use crate::lines;
use crate::lines::split_lines;
use crate::text;
use crate::text::{chars_of, same_str, string_of};
use crate::ui::draw;
use crate::ui::draw::{Canvas, Rect, Style, Theme};
use crate::ui::markdown;
use crate::ui::markdown::{parse_markdown_segments, Palette, Segment};
use crate::ui::wrap;
use crate::ui::wrap::{text_width, word_wrap};

verus! {

broadcast use vstd::string::group_string_axioms;

/// A single message in the AI chat conversation.
#[derive(Debug, Clone, PartialEq, Eq)]
pub struct ChatMessage {
    /// Role of the sender: `"user"` or `"assistant"`.
    pub role: String,
    /// Message content (may span multiple lines).
    pub content: String,
}

/// A message with its texts as character sequences.
pub struct Said {
    pub role: Seq<char>,
    pub content: Seq<char>,
}

impl View for ChatMessage {
    type V = Said;

    open spec fn view(&self) -> Said {
        Said { role: self.role@, content: self.content@ }
    }
}

/// The messages behind a vector.
pub open spec fn said(v: Seq<ChatMessage>) -> Seq<Said> {
    v.map_values(|m: ChatMessage| m@)
}

/// A pre-computed line for rendering.
#[derive(Debug, Clone, PartialEq, Eq)]
pub enum DisplayLine {
    /// Role header (e.g., "You:", "Assistant:")
    RoleHeader { text: String, style: Style },
    /// Content line with styled segments
    Content { segments: Vec<Segment>, is_code_block: bool, is_user: bool },
    /// Blank line for spacing
    BlankLine,
}

/// A display line with its texts as character sequences.
pub enum Shown {
    RoleHeader { text: Seq<char>, style: Style },
    Content { segments: Seq<(Seq<char>, Style)>, is_code_block: bool, is_user: bool },
    BlankLine,
}

impl View for DisplayLine {
    type V = Shown;

    open spec fn view(&self) -> Shown {
        match *self {
            DisplayLine::RoleHeader { text, style } => Shown::RoleHeader { text: text@, style },
            DisplayLine::Content { segments, is_code_block, is_user } => Shown::Content {
                segments: markdown::segments(segments@),
                is_code_block,
                is_user,
            },
            DisplayLine::BlankLine => Shown::BlankLine,
        }
    }
}

/// The display lines behind a vector.
pub open spec fn shown(v: Seq<DisplayLine>) -> Seq<Shown> {
    v.map_values(|l: DisplayLine| l@)
}

/// The styles of a chat.
#[derive(Debug, Clone, Copy, PartialEq, Eq, Structural)]
pub struct ChatStyles {
    pub user: Style,
    pub system: Style,
    pub error: Style,
    pub user_header: Style,
    pub assistant_header: Style,
    pub system_header: Style,
    pub error_header: Style,
    /// For the messages of the assistant, which are formatted.
    pub palette: Palette,
}

impl ChatStyles {
    /// The styles that a theme gives a chat.
    pub open spec fn of(theme: Theme) -> ChatStyles {
        ChatStyles {
            user: theme.text_focus,
            system: theme.warning.in_italics(),
            error: theme.error,
            user_header: theme.text_focus.in_bold(),
            assistant_header: theme.heading.in_bold(),
            system_header: theme.warning.marked(
                draw::Modifiers { bold: true, italic: true, ..draw::Modifiers::nothing() },
            ),
            error_header: theme.error.in_bold(),
            palette: Palette {
                base: theme.text,
                code: theme.text.under(theme.statusline),
                bold: theme.text.in_bold(),
                inline_code: theme.text.under(theme.inlay_hint),
            },
        }
    }

    /// The styles that a theme gives a chat.
    pub fn new(theme: &Theme) -> (r: ChatStyles)
        ensures
            r == ChatStyles::of(*theme),
    {
        let mut both = draw::Modifiers::none();
        both.bold = true;
        both.italic = true;
        ChatStyles {
            user: theme.text_focus,
            system: theme.warning.italic(),
            error: theme.error,
            user_header: theme.text_focus.bold(),
            assistant_header: theme.heading.bold(),
            system_header: theme.warning.add_modifier(both),
            error_header: theme.error.bold(),
            palette: Palette {
                base: theme.text,
                code: theme.text.patch(theme.statusline),
                bold: theme.text.bold(),
                inline_code: theme.text.patch(theme.inlay_hint),
            },
        }
    }
}

// ---------------------------------------------------------------------------------------------
// Display lines
// ---------------------------------------------------------------------------------------------

/// Whether messages of the role are shown as they are, without formatting.
pub open spec fn is_plain_role(role: Seq<char>) -> bool {
    role == "user"@ || role == "system"@ || role == "error"@
}

/// The header of a message.
pub open spec fn role_header(role: Seq<char>, st: ChatStyles) -> Shown {
    if role == "user"@ {
        Shown::RoleHeader { text: "┃ You"@, style: st.user_header }
    } else if role == "system"@ {
        Shown::RoleHeader { text: "⚙ System"@, style: st.system_header }
    } else if role == "error"@ {
        Shown::RoleHeader { text: "✗ Error"@, style: st.error_header }
    } else {
        Shown::RoleHeader { text: "● Assistant"@, style: st.assistant_header }
    }
}

/// The style of plain messages of a role.
pub open spec fn plain_style(role: Seq<char>, st: ChatStyles) -> Style {
    if role == "user"@ {
        st.user
    } else if role == "system"@ {
        st.system
    } else {
        st.error
    }
}

/// The columns for the content of a message: the user's is indented by one more, for a bar.
pub open spec fn content_width(role: Seq<char>, width: int) -> nat {
    if role == "user"@ {
        draw::less(width, 3) as nat
    } else {
        draw::less(width, 2) as nat
    }
}

/// Lines of text as content in one style.
pub open spec fn plain_lines(ls: Seq<Seq<char>>, style: Style, is_user: bool) -> Seq<Shown> {
    ls.map_values(
        |l: Seq<char>|
            Shown::Content { segments: seq![(l, style)], is_code_block: false, is_user },
    )
}

/// The lines of a plain message, each wrapped.
pub open spec fn plain_content(
    ls: Seq<Seq<char>>,
    width: nat,
    style: Style,
    is_user: bool,
) -> Seq<Shown>
    decreases ls.len(),
{
    if ls.len() == 0 {
        Seq::empty()
    } else {
        plain_lines(wrap::wrapped(ls[0], width), style, is_user) + plain_content(
            ls.skip(1),
            width,
            style,
            is_user,
        )
    }
}

/// A formatted line that starts inside a code block or outside of one. It is shown as code where
/// it starts or ends inside.
pub open spec fn formatted_line(line: Seq<char>, in_code: bool, p: Palette) -> Shown {
    Shown::Content {
        segments: markdown::markdown(line, in_code, p),
        is_code_block: in_code || markdown::stays_in_code(line, in_code),
        is_user: false,
    }
}

/// Lines that are formatted one after another.
pub open spec fn formatted_lines(ls: Seq<Seq<char>>, in_code: bool, p: Palette) -> Seq<Shown>
    decreases ls.len(),
{
    if ls.len() == 0 {
        Seq::empty()
    } else {
        seq![formatted_line(ls[0], in_code, p)] + formatted_lines(
            ls.skip(1),
            markdown::stays_in_code(ls[0], in_code),
            p,
        )
    }
}

/// Whether the text after the lines is inside a code block.
pub open spec fn code_after(ls: Seq<Seq<char>>, in_code: bool) -> bool
    decreases ls.len(),
{
    if ls.len() == 0 {
        in_code
    } else {
        code_after(ls.skip(1), markdown::stays_in_code(ls[0], in_code))
    }
}

/// The lines of a formatted message. Outside of code blocks they are wrapped; inside they are kept
/// as they are, with their indentation.
pub open spec fn formatted_content(
    ls: Seq<Seq<char>>,
    in_code: bool,
    width: nat,
    p: Palette,
) -> Seq<Shown>
    decreases ls.len(),
{
    if ls.len() == 0 {
        Seq::empty()
    } else {
        let parts = if in_code {
            seq![ls[0]]
        } else {
            wrap::wrapped(ls[0], width)
        };
        formatted_lines(parts, in_code, p) + formatted_content(
            ls.skip(1),
            code_after(parts, in_code),
            width,
            p,
        )
    }
}

/// The lines of the content of a message.
pub open spec fn content_lines(m: Said, width: int, st: ChatStyles) -> Seq<Shown> {
    let ls = lines::lines(m.content);
    let columns = content_width(m.role, width);
    if m.content.len() == 0 {
        seq![Shown::BlankLine]
    } else if is_plain_role(m.role) {
        plain_content(ls, columns, plain_style(m.role, st), m.role == "user"@)
    } else {
        formatted_content(ls, false, columns, st.palette)
    }
}

/// The lines of a message: a header, the content and a blank line.
pub open spec fn message_lines(m: Said, width: int, st: ChatStyles) -> Seq<Shown> {
    seq![role_header(m.role, st)] + content_lines(m, width, st) + seq![Shown::BlankLine]
}

/// The lines of all messages.
pub open spec fn display(messages: Seq<Said>, width: int, st: ChatStyles) -> Seq<Shown>
    decreases messages.len(),
{
    if messages.len() == 0 {
        Seq::empty()
    } else {
        display(messages.drop_last(), width, st) + message_lines(messages.last(), width, st)
    }
}

fn push_line(v: &mut Vec<DisplayLine>, line: DisplayLine)
    ensures
        shown(final(v)@) == shown(old(v)@).push(line@),
{
    let ghost before = v@;
    v.push(line);
    proof {
        assert(shown(v@) =~= shown(before).push(line@));
    }
}

fn push_plain(v: &mut Vec<DisplayLine>, line: &String, style: Style, is_user: bool)
    ensures
        shown(final(v)@) == shown(old(v)@).push(
            Shown::Content { segments: seq![(line@, style)], is_code_block: false, is_user },
        ),
{
    let mut segments: Vec<Segment> = Vec::new();
    segments.push((line.clone(), style));
    proof {
        assert(markdown::segments(segments@) =~= seq![(line@, style)]);
    }
    push_line(v, DisplayLine::Content { segments, is_code_block: false, is_user });
}

fn push_plain_content(
    v: &mut Vec<DisplayLine>,
    ls: &Vec<Vec<char>>,
    width: usize,
    style: Style,
    is_user: bool,
)
    ensures
        shown(final(v)@) == shown(old(v)@) + plain_content(
            text::texts(ls@),
            width as nat,
            style,
            is_user,
        ),
{
    let ghost all = text::texts(ls@);
    let ghost want = shown(v@) + plain_content(all, width as nat, style, is_user);
    let mut i: usize = 0;
    proof {
        assert(all.skip(0) =~= all);
    }
    while i < ls.len()
        invariant
            i <= ls@.len(),
            all == text::texts(ls@),
            shown(v@) + plain_content(all.skip(i as int), width as nat, style, is_user) == want,
        decreases ls@.len() - i,
    {
        let line = string_of(&ls[i]);
        let parts = word_wrap(line.as_str(), width);
        let ghost pieces = text::strings(parts@);
        let ghost start = shown(v@);
        let ghost mapped = plain_lines(pieces, style, is_user);
        let mut j: usize = 0;
        proof {
            assert(all[i as int] == ls@[i as int]@);
            assert(all.skip(i as int)[0] == line@);
            assert(all.skip(i as int).skip(1) =~= all.skip(i + 1));
            assert(start + mapped.take(0) =~= start);
        }
        while j < parts.len()
            invariant
                j <= parts@.len(),
                pieces == text::strings(parts@),
                mapped == plain_lines(pieces, style, is_user),
                shown(v@) == start + mapped.take(j as int),
            decreases parts@.len() - j,
        {
            push_plain(v, &parts[j], style, is_user);
            proof {
                assert(pieces[j as int] == parts@[j as int]@);
                assert(mapped.take(j + 1) =~= mapped.take(j as int).push(mapped[j as int]));
                assert(start + mapped.take(j + 1) =~= (start + mapped.take(j as int)).push(
                    mapped[j as int],
                ));
            }
            j = j + 1;
        }
        proof {
            assert(mapped.take(j as int) =~= mapped);
            let rest = plain_content(all.skip(i + 1), width as nat, style, is_user);
            assert((start + mapped) + rest =~= start + (mapped + rest));
        }
        i = i + 1;
    }
    proof {
        assert(all.skip(i as int) =~= Seq::<Seq<char>>::empty());
        assert(shown(v@) + plain_content(all.skip(i as int), width as nat, style, is_user)
            =~= shown(v@));
    }
}

fn push_formatted(v: &mut Vec<DisplayLine>, line: &str, in_code: &mut bool, p: &Palette)
    ensures
        shown(final(v)@) == shown(old(v)@).push(formatted_line(line@, *old(in_code), *p)),
        *final(in_code) == markdown::stays_in_code(line@, *old(in_code)),
{
    let was_in_code = *in_code;
    let segments = parse_markdown_segments(line, in_code, p);
    push_line(
        v,
        DisplayLine::Content { segments, is_code_block: was_in_code || *in_code, is_user: false },
    );
}

fn push_formatted_lines(
    v: &mut Vec<DisplayLine>,
    parts: &Vec<String>,
    in_code: &mut bool,
    p: &Palette,
)
    ensures
        shown(final(v)@) == shown(old(v)@) + formatted_lines(
            text::strings(parts@),
            *old(in_code),
            *p,
        ),
        *final(in_code) == code_after(text::strings(parts@), *old(in_code)),
{
    let ghost all = text::strings(parts@);
    let ghost want = shown(v@) + formatted_lines(all, *in_code, *p);
    let ghost after = code_after(all, *in_code);
    let mut i: usize = 0;
    proof {
        assert(all.skip(0) =~= all);
    }
    while i < parts.len()
        invariant
            i <= parts@.len(),
            all == text::strings(parts@),
            shown(v@) + formatted_lines(all.skip(i as int), *in_code, *p) == want,
            code_after(all.skip(i as int), *in_code) == after,
        decreases parts@.len() - i,
    {
        let ghost start = shown(v@);
        let ghost was = *in_code;
        proof {
            assert(all[i as int] == parts@[i as int]@);
            assert(all.skip(i as int)[0] == parts@[i as int]@);
            assert(all.skip(i as int).skip(1) =~= all.skip(i + 1));
        }
        push_formatted(v, parts[i].as_str(), in_code, p);
        proof {
            let line = formatted_line(all[i as int], was, *p);
            let rest = formatted_lines(all.skip(i + 1), *in_code, *p);
            assert(start.push(line) + rest =~= start + (seq![line] + rest));
        }
        i = i + 1;
    }
    proof {
        assert(all.skip(i as int) =~= Seq::<Seq<char>>::empty());
        assert(shown(v@) + formatted_lines(all.skip(i as int), *in_code, *p) =~= shown(v@));
    }
}

fn push_formatted_content(
    v: &mut Vec<DisplayLine>,
    ls: &Vec<Vec<char>>,
    width: usize,
    p: &Palette,
)
    ensures
        shown(final(v)@) == shown(old(v)@) + formatted_content(
            text::texts(ls@),
            false,
            width as nat,
            *p,
        ),
{
    let ghost all = text::texts(ls@);
    let ghost want = shown(v@) + formatted_content(all, false, width as nat, *p);
    let mut in_code: bool = false;
    let mut i: usize = 0;
    proof {
        assert(all.skip(0) =~= all);
    }
    while i < ls.len()
        invariant
            i <= ls@.len(),
            all == text::texts(ls@),
            shown(v@) + formatted_content(all.skip(i as int), in_code, width as nat, *p) == want,
        decreases ls@.len() - i,
    {
        let line = string_of(&ls[i]);
        let ghost start = shown(v@);
        let ghost was = in_code;
        proof {
            assert(all[i as int] == ls@[i as int]@);
            assert(all.skip(i as int)[0] == line@);
            assert(all.skip(i as int).skip(1) =~= all.skip(i + 1));
        }
        let parts = if in_code {
            let mut one: Vec<String> = Vec::new();
            one.push(line);
            proof {
                assert(text::strings(one@) =~= seq![line@]);
            }
            one
        } else {
            word_wrap(line.as_str(), width)
        };
        push_formatted_lines(v, &parts, &mut in_code, p);
        proof {
            let here = formatted_lines(text::strings(parts@), was, *p);
            let rest = formatted_content(all.skip(i + 1), in_code, width as nat, *p);
            assert((start + here) + rest =~= start + (here + rest));
        }
        i = i + 1;
    }
    proof {
        assert(all.skip(i as int) =~= Seq::<Seq<char>>::empty());
        assert(shown(v@) + formatted_content(all.skip(i as int), in_code, width as nat, *p)
            =~= shown(v@));
    }
}

fn push_header(v: &mut Vec<DisplayLine>, text: &str, style: Style)
    ensures
        shown(final(v)@) == shown(old(v)@).push(Shown::RoleHeader { text: text@, style }),
{
    let t = chars_of(text);
    push_line(v, DisplayLine::RoleHeader { text: string_of(&t), style });
}

/// Appends the lines of a message.
fn push_message_lines(v: &mut Vec<DisplayLine>, m: &ChatMessage, width: u16, st: &ChatStyles)
    ensures
        shown(final(v)@) == shown(old(v)@) + message_lines(m@, width as int, *st),
{
    let ghost start = shown(v@);
    let role = m.role.as_str();
    let is_user = same_str(role, "user");
    let is_system = same_str(role, "system");
    let is_error = same_str(role, "error");
    if is_user {
        push_header(v, "┃ You", st.user_header);
    } else if is_system {
        push_header(v, "⚙ System", st.system_header);
    } else if is_error {
        push_header(v, "✗ Error", st.error_header);
    } else {
        push_header(v, "● Assistant", st.assistant_header);
    }
    let ghost head = role_header(m.role@, *st);
    assert(shown(v@) == start.push(head));
    let content = chars_of(m.content.as_str());
    let ghost body = content_lines(m@, width as int, *st);
    if content.len() == 0 {
        push_line(v, DisplayLine::BlankLine);
        proof {
            assert(start.push(head).push(Shown::BlankLine) =~= start.push(head) + body);
        }
    } else {
        let ls = split_lines(&content);
        if is_user || is_system || is_error {
            let columns: usize = if is_user {
                width.saturating_sub(3) as usize
            } else {
                width.saturating_sub(2) as usize
            };
            let style = if is_user {
                st.user
            } else if is_system {
                st.system
            } else {
                st.error
            };
            push_plain_content(v, &ls, columns, style, is_user);
        } else {
            push_formatted_content(v, &ls, width.saturating_sub(2) as usize, &st.palette);
        }
    }
    assert(shown(v@) == start.push(head) + body);
    push_line(v, DisplayLine::BlankLine);
    proof {
        assert((start.push(head) + body).push(Shown::BlankLine) =~= start + (seq![head] + body
            + seq![Shown::BlankLine]));
    }
}

/// The lines of all messages, for an area of the given width.
pub fn display_lines(messages: &Vec<ChatMessage>, width: u16, st: &ChatStyles) -> (r: Vec<
    DisplayLine,
>)
    ensures
        shown(r@) == display(said(messages@), width as int, *st),
{
    let mut out: Vec<DisplayLine> = Vec::new();
    let ghost all = said(messages@);
    let mut i: usize = 0;
    proof {
        assert(all.take(0) =~= Seq::<Said>::empty());
        assert(shown(out@) =~= Seq::<Shown>::empty());
    }
    while i < messages.len()
        invariant
            i <= messages@.len(),
            all == said(messages@),
            shown(out@) == display(all.take(i as int), width as int, *st),
        decreases messages@.len() - i,
    {
        push_message_lines(&mut out, &messages[i], width, st);
        proof {
            assert(all[i as int] == messages@[i as int]@);
            assert(all.take(i + 1).drop_last() =~= all.take(i as int));
            assert(all.take(i + 1).last() == all[i as int]);
        }
        i = i + 1;
    }
    proof {
        assert(all.take(i as int) =~= all);
    }
    out
}

// ---------------------------------------------------------------------------------------------
// Drawing
// ---------------------------------------------------------------------------------------------

/// Segments one after another from column `x` on, up to column `right`.
pub open spec fn segment_draws(
    segments: Seq<(Seq<char>, Style)>,
    x: int,
    right: int,
    y: int,
) -> Seq<draw::Draw>
    decreases segments.len(),
{
    if segments.len() == 0 || x >= right {
        Seq::empty()
    } else {
        let (text, style) = segments[0];
        seq![draw::Draw::Text { x, y, text, max: right - x, style }] + segment_draws(
            segments.skip(1),
            x + wrap::advance(text),
            right,
            y,
        )
    }
}

/// The column behind the segments, or one at or past `right` where they do not all fit.
pub open spec fn segments_end(segments: Seq<(Seq<char>, Style)>, x: int, right: int) -> int
    decreases segments.len(),
{
    if segments.len() == 0 || x >= right {
        x
    } else {
        segments_end(segments.skip(1), x + wrap::advance(segments[0].0), right)
    }
}

/// The steps that draw a display line in the row `y` of an area. `at_cursor` says that the line
/// shows the cursor of text still streaming in.
pub open spec fn line_draws(line: Shown, area: Rect, y: int, at_cursor: bool, theme: Theme) -> Seq<
    draw::Draw,
> {
    let right = area.x + area.width;
    match line {
        Shown::RoleHeader { text, style } => seq![
            draw::Draw::Text { x: area.x as int, y, text, max: area.width as int, style },
        ],
        Shown::Content { segments, is_code_block, is_user } => {
            let block = if is_code_block {
                seq![
                    draw::Draw::Paint {
                        x: area.x as int,
                        y,
                        width: area.width as int,
                        style: theme.statusline,
                    },
                    draw::Draw::Glyph { x: area.x as int, y, symbol: '▎', style: theme.string },
                ]
            } else {
                Seq::empty()
            };
            let bar = if is_user && !is_code_block {
                seq![draw::Draw::Glyph { x: area.x + 1, y, symbol: '┃', style: theme.diff_plus }]
            } else {
                Seq::empty()
            };
            let x = area.x + if is_user {
                3int
            } else {
                2
            };
            let end = segments_end(segments, x, right);
            let cursor = if at_cursor && end < right {
                seq![draw::Draw::Text { x: end, y, text: "▍"@, max: 1, style: theme.cursor }]
            } else {
                Seq::empty()
            };
            block + bar + segment_draws(segments, x, right, y) + cursor
        },
        Shown::BlankLine => Seq::empty(),
    }
}

/// The steps that draw the lines from `offset` on, `n` of them, from the top of the area down.
pub open spec fn lines_draws(
    all: Seq<Shown>,
    offset: int,
    n: int,
    area: Rect,
    loading: bool,
    theme: Theme,
) -> Seq<draw::Draw>
    decreases n,
{
    if n <= 0 {
        Seq::empty()
    } else {
        let k = offset + n - 1;
        lines_draws(all, offset, n - 1, area, loading, theme) + line_draws(
            all[k],
            area,
            area.y + n - 1,
            loading && k == draw::less(all.len() as int, 2),
            theme,
        )
    }
}

/// How many of the lines from `offset` on are visible.
pub open spec fn visible_lines(total: int, offset: int, area: Rect) -> int {
    draw::least(area.height as int, draw::less(total, offset))
}

/// The steps that draw the messages, and behind them, while an answer is awaited, a note that
/// says so.
pub open spec fn messages_draws(
    all: Seq<Shown>,
    offset: int,
    area: Rect,
    loading: bool,
    theme: Theme,
) -> Seq<draw::Draw> {
    let n = visible_lines(all.len() as int, offset, area);
    let note = if loading && n < area.height {
        seq![
            draw::Draw::Text {
                x: area.x + 2,
                y: area.y + n,
                text: "◌ ◌ ◌  Thinking…"@,
                max: draw::less(area.width as int, 2),
                style: theme.diff_plus,
            },
        ]
    } else {
        Seq::empty()
    };
    lines_draws(all, offset, n, area, loading, theme) + note
}

fn draw_segments(canvas: &mut Canvas, segments: &Vec<Segment>, x: u16, right: u16, y: u16) -> (r: u32)
    ensures
        final(canvas)@ == old(canvas)@ + segment_draws(
            markdown::segments(segments@),
            x as int,
            right as int,
            y as int,
        ),
        r == segments_end(markdown::segments(segments@), x as int, right as int),
{
    let ghost all = markdown::segments(segments@);
    let ghost want = canvas@ + segment_draws(all, x as int, right as int, y as int);
    let ghost end = segments_end(all, x as int, right as int);
    let mut at: u32 = x as u32;
    let mut i: usize = 0;
    proof {
        assert(all.skip(0) =~= all);
    }
    while i < segments.len() && at < right as u32
        invariant
            i <= segments@.len(),
            at <= 0x2_0000,
            all == markdown::segments(segments@),
            canvas@ + segment_draws(all.skip(i as int), at as int, right as int, y as int) == want,
            segments_end(all.skip(i as int), at as int, right as int) == end,
        decreases segments@.len() - i,
    {
        let seg = &segments[i];
        let ghost start = canvas@;
        proof {
            assert(all[i as int] == markdown::segment(segments@[i as int]));
            assert(all.skip(i as int)[0] == (seg.0@, seg.1));
            assert(all.skip(i as int).skip(1) =~= all.skip(i + 1));
        }
        let max: usize = (right as u32 - at) as usize;
        canvas.text(at as u16, y, seg.0.as_str(), max, seg.1);
        let w: usize = text_width(seg.0.as_str()) % 65536;
        proof {
            let first = draw::Draw::Text {
                x: at as int,
                y: y as int,
                text: seg.0@,
                max: right - at,
                style: seg.1,
            };
            assert(canvas@ == start.push(first));
            let rest = segment_draws(all.skip(i + 1), at + w, right as int, y as int);
            assert(start.push(first) + rest =~= start + (seq![first] + rest));
        }
        at = at + w as u32;
        i = i + 1;
    }
    proof {
        assert(segment_draws(all.skip(i as int), at as int, right as int, y as int) =~= Seq::<
            draw::Draw,
        >::empty());
        assert(canvas@ + Seq::<draw::Draw>::empty() =~= canvas@);
    }
    at
}

fn draw_line(
    canvas: &mut Canvas,
    line: &DisplayLine,
    area: Rect,
    y: u16,
    at_cursor: bool,
    theme: &Theme,
)
    requires
        area.wf(),
        area.width >= 3,
    ensures
        final(canvas)@ == old(canvas)@ + line_draws(line@, area, y as int, at_cursor, *theme),
{
    let ghost start = canvas@;
    let right = area.x + area.width;
    match line {
        DisplayLine::RoleHeader { text, style } => {
            canvas.text(area.x, y, text.as_str(), area.width as usize, *style);
            proof {
                assert(canvas@ =~= start + line_draws(line@, area, y as int, at_cursor, *theme));
            }
        },
        DisplayLine::Content { segments, is_code_block, is_user } => {
            if *is_code_block {
                canvas.paint(area.x, y, area.width, theme.statusline);
                canvas.glyph(area.x, y, '▎', theme.string);
            }
            if *is_user && !*is_code_block {
                canvas.glyph(area.x + 1, y, '┃', theme.diff_plus);
            }
            let ghost marked = canvas@;
            let x: u16 = if *is_user {
                area.x + 3
            } else {
                area.x + 2
            };
            let end = draw_segments(canvas, segments, x, right, y);
            if at_cursor && end < right as u32 {
                canvas.text(end as u16, y, "▍", 1, theme.cursor);
            }
            proof {
                assert(canvas@ =~= start + line_draws(line@, area, y as int, at_cursor, *theme));
            }
        },
        DisplayLine::BlankLine => {
            proof {
                assert(canvas@ =~= start + line_draws(line@, area, y as int, at_cursor, *theme));
            }
        },
    }
}

/// Draws the messages: the display lines from `offset` on, as many as the area has rows.
pub fn draw_messages(
    canvas: &mut Canvas,
    all: &Vec<DisplayLine>,
    offset: usize,
    area: Rect,
    loading: bool,
    theme: &Theme,
)
    requires
        area.wf(),
        area.width >= 3,
    ensures
        final(canvas)@ == old(canvas)@ + messages_draws(
            shown(all@),
            offset as int,
            area,
            loading,
            *theme,
        ),
{
    let ghost start = canvas@;
    let ghost model = shown(all@);
    let last: usize = all.len().saturating_sub(2);
    let below: usize = all.len().saturating_sub(offset);
    let n: u16 = if below < area.height as usize {
        below as u16
    } else {
        area.height
    };
    let mut k: u16 = 0;
    proof {
        assert(start + lines_draws(model, offset as int, 0, area, loading, *theme) =~= start);
    }
    while k < n
        invariant
            k <= n <= area.height,
            n <= all.len() - offset || n == 0,
            area.wf(),
            area.width >= 3,
            model == shown(all@),
            last == draw::less(all@.len() as int, 2),
            canvas@ == start + lines_draws(
                model,
                offset as int,
                k as int,
                area,
                loading,
                *theme,
            ),
        decreases n - k,
    {
        let i: usize = offset + k as usize;
        let ghost before = lines_draws(model, offset as int, k as int, area, loading, *theme);
        draw_line(canvas, &all[i], area, area.y + k, loading && i == last, theme);
        proof {
            assert(model[i as int] == all@[i as int]@);
            let here = line_draws(
                model[i as int],
                area,
                area.y + k,
                loading && i == draw::less(model.len() as int, 2),
                *theme,
            );
            assert((start + before) + here =~= start + (before + here));
        }
        k = k + 1;
    }
    let ghost lines_part = lines_draws(model, offset as int, n as int, area, loading, *theme);
    assert(n == visible_lines(model.len() as int, offset as int, area));
    if loading && n < area.height {
        canvas.text(
            area.x + 2,
            area.y + n,
            "◌ ◌ ◌  Thinking…",
            area.width.saturating_sub(2) as usize,
            theme.diff_plus,
        );
    }
    proof {
        assert(canvas@ =~= start + messages_draws(model, offset as int, area, loading, *theme));
    }
}

/// No message, no line; and every message takes a header and at least one blank line.
pub proof fn law_messages_take_lines(messages: Seq<Said>, width: int, st: ChatStyles)
    ensures
        display(messages, width, st).len() >= 2 * messages.len(),
        messages.len() == 0 ==> display(messages, width, st).len() == 0,
    decreases messages.len(),
{
    if messages.len() > 0 {
        law_messages_take_lines(messages.drop_last(), width, st);
    }
}

/// A message added at the end leaves the lines of those before it as they are.
pub proof fn law_new_message_keeps_lines(
    messages: Seq<Said>,
    added: Said,
    width: int,
    st: ChatStyles,
)
    ensures
        display(messages.push(added), width, st) == display(messages, width, st) + message_lines(
            added,
            width,
            st,
        ),
{
    assert(messages.push(added).drop_last() =~= messages);
}

/// A message has a header that says who speaks, its content and a blank line. Only what the assistant
/// says is formatted; a message of the user is marked as such.
pub proof fn law_messages_say_who_speaks(m: Said, width: int, st: ChatStyles)
    ensures
        ({
            let all = message_lines(m, width, st);
            let head = |text: Seq<char>, style: Style|
                all.first() == (Shown::RoleHeader { text, style });
            &&& all.len() >= 2
            &&& all.last() is BlankLine
            &&& m.role == "user"@ ==> head("┃ You"@, st.user_header)
            &&& m.role == "system"@ ==> head("⚙ System"@, st.system_header)
            &&& m.role == "error"@ ==> head("✗ Error"@, st.error_header)
            &&& m.role == "assistant"@ ==> head("● Assistant"@, st.assistant_header)
            &&& all == seq![all.first()] + content_lines(m, width, st) + seq![Shown::BlankLine]
        }),
{
    reveal_strlit("user");
    reveal_strlit("system");
    reveal_strlit("error");
    reveal_strlit("assistant");
    assert("user"@[0] == 'u' && "system"@[0] == 's' && "error"@[0] == 'e' && "assistant"@[0] == 'a');
}

proof fn lemma_plain_content(ls: Seq<Seq<char>>, line: Seq<char>, width: nat, style: Style, is_user: bool)
    ensures
        plain_content(ls.push(line), width, style, is_user) == plain_content(
            ls,
            width,
            style,
            is_user,
        ) + plain_lines(wrap::wrapped(line, width), style, is_user),
    decreases ls.len(),
{
    if ls.len() == 0 {
        let none = Seq::<Seq<char>>::empty();
        assert(ls =~= none);
        assert(ls.push(line).skip(1) =~= none);
        assert(plain_content(none, width, style, is_user) =~= Seq::<Shown>::empty());
        assert(plain_content(ls.push(line), width, style, is_user) =~= plain_content(
            ls,
            width,
            style,
            is_user,
        ) + plain_lines(wrap::wrapped(line, width), style, is_user));
    } else {
        assert(ls.push(line).skip(1) =~= ls.skip(1).push(line));
        lemma_plain_content(ls.skip(1), line, width, style, is_user);
        assert(plain_content(ls.push(line), width, style, is_user) =~= plain_content(
            ls,
            width,
            style,
            is_user,
        ) + plain_lines(wrap::wrapped(line, width), style, is_user));
    }
}

/// What the user, the system or an error says is shown line by line, each wrapped to the columns
/// there are: three less than the width for the user, two less for the others. It is in the style of
/// its role, and no code.
pub proof fn law_plain_messages_are_wrapped(line: Seq<char>, width: int, st: ChatStyles, i: int)
    requires
        width >= 3,
        line.len() > 0,
        forall|k: int| 0 <= k < line.len() ==> line[k] != '\n' && line[k] != '\r',
    ensures
        ({
            let by_user = content_lines(Said { role: "user"@, content: line }, width, st);
            let by_system = content_lines(Said { role: "system"@, content: line }, width, st);
            let narrow = wrap::wrapped(line, (width - 3) as nat);
            let wide = wrap::wrapped(line, (width - 2) as nat);
            &&& by_user.len() == narrow.len()
            &&& 0 <= i < narrow.len() ==> by_user[i] == (Shown::Content {
                segments: seq![(narrow[i], st.user)],
                is_code_block: false,
                is_user: true,
            })
            &&& by_system.len() == wide.len()
            &&& 0 <= i < wide.len() ==> by_system[i] == (Shown::Content {
                segments: seq![(wide[i], st.system)],
                is_code_block: false,
                is_user: false,
            })
        }),
{
    reveal_strlit("user");
    reveal_strlit("system");
    reveal_strlit("error");
    assert("user"@[0] == 'u' && "system"@[0] == 's');
    lines::law_line_ends(line, line);
    let none = Seq::<Seq<char>>::empty();
    assert(seq![line] =~= none.push(line));
    lemma_plain_content(none, line, (width - 3) as nat, st.user, true);
    lemma_plain_content(none, line, (width - 2) as nat, st.system, false);
    let a = plain_lines(wrap::wrapped(line, (width - 3) as nat), st.user, true);
    let b = plain_lines(wrap::wrapped(line, (width - 2) as nat), st.system, false);
    assert(Seq::<Shown>::empty() + a =~= a);
    assert(Seq::<Shown>::empty() + b =~= b);
}

/// In what the assistant says, a line outside of code is wrapped and formatted; inside of code it is
/// shown whole, as code.
pub proof fn law_answers_are_formatted(
    line: Seq<char>,
    rest: Seq<Seq<char>>,
    width: nat,
    p: Palette,
)
    ensures
        formatted_content(seq![line] + rest, true, width, p) == seq![
            Shown::Content {
                segments: markdown::markdown(line, true, p),
                is_code_block: true,
                is_user: false,
            },
        ] + formatted_content(rest, markdown::stays_in_code(line, true), width, p),
        formatted_content(seq![line] + rest, false, width, p) == formatted_lines(
            wrap::wrapped(line, width),
            false,
            p,
        ) + formatted_content(rest, code_after(wrap::wrapped(line, width), false), width, p),
        formatted_lines(seq![line] + rest, false, p) == seq![
            Shown::Content {
                segments: markdown::markdown(line, false, p),
                is_code_block: markdown::stays_in_code(line, false),
                is_user: false,
            },
        ] + formatted_lines(rest, markdown::stays_in_code(line, false), p),
        code_after(seq![line] + rest, false) == code_after(
            rest,
            markdown::stays_in_code(line, false),
        ),
{
    let none = Seq::<Seq<char>>::empty();
    assert((seq![line] + rest).skip(1) =~= rest);
    assert(seq![line].skip(1) =~= none);
    reveal_with_fuel(formatted_lines, 2);
    reveal_with_fuel(code_after, 2);
    assert(formatted_lines(seq![line], true, p) =~= seq![formatted_line(line, true, p)]);
}

/// A header is drawn at the left edge, with its text and style; content two columns further in, or
/// three behind a bar where it is the user's, its pieces one behind the other. A blank line draws
/// nothing. Code has a background of its own, and its bar at the edge.
pub proof fn law_lines_are_drawn_in_their_columns(
    head: Seq<char>,
    style: Style,
    piece: Seq<char>,
    area: Rect,
    y: int,
    theme: Theme,
)
    requires
        area.width > 3,
    ensures
        ({
            let right = area.x + area.width;
            let own = seq![(piece, style)];
            let at = |x: int| draw::Draw::Text { x, y, text: piece, max: right - x, style };
            let plain = Shown::Content { segments: own, is_code_block: false, is_user: false };
            let user = Shown::Content { segments: own, is_code_block: false, is_user: true };
            let code = Shown::Content { segments: own, is_code_block: true, is_user: false };
            &&& line_draws(Shown::RoleHeader { text: head, style }, area, y, false, theme) == seq![
                draw::Draw::Text { x: area.x as int, y, text: head, max: area.width as int, style },
            ]
            &&& line_draws(Shown::BlankLine, area, y, false, theme).len() == 0
            &&& line_draws(plain, area, y, false, theme) == seq![at(area.x + 2)]
            &&& line_draws(user, area, y, false, theme) == seq![
                draw::Draw::Glyph { x: area.x + 1, y, symbol: '┃', style: theme.diff_plus },
                at(area.x + 3),
            ]
            &&& line_draws(code, area, y, false, theme) == seq![
                draw::Draw::Paint {
                    x: area.x as int,
                    y,
                    width: area.width as int,
                    style: theme.statusline,
                },
                draw::Draw::Glyph { x: area.x as int, y, symbol: '▎', style: theme.string },
                at(area.x + 2),
            ]
        }),
{
    let right = area.x + area.width;
    let own = seq![(piece, style)];
    let none = Seq::<(Seq<char>, Style)>::empty();
    assert(own.skip(1) =~= none);
    let x2 = area.x + 2;
    let x3 = area.x + 3;
    reveal_with_fuel(segment_draws, 2);
    assert(segment_draws(own, x2, right, y) =~= seq![
        draw::Draw::Text { x: x2, y, text: piece, max: right - x2, style },
    ]);
    assert(segment_draws(own, x3, right, y) =~= seq![
        draw::Draw::Text { x: x3, y, text: piece, max: right - x3, style },
    ]);
    let plain = Shown::Content { segments: own, is_code_block: false, is_user: false };
    let user = Shown::Content { segments: own, is_code_block: false, is_user: true };
    let code = Shown::Content { segments: own, is_code_block: true, is_user: false };
    assert(line_draws(plain, area, y, false, theme) =~= seq![
        draw::Draw::Text { x: x2, y, text: piece, max: right - x2, style },
    ]);
    assert(line_draws(user, area, y, false, theme) =~= seq![
        draw::Draw::Glyph { x: area.x + 1, y, symbol: '┃', style: theme.diff_plus },
        draw::Draw::Text { x: x3, y, text: piece, max: right - x3, style },
    ]);
    assert(line_draws(code, area, y, false, theme) =~= seq![
        draw::Draw::Paint { x: area.x as int, y, width: area.width as int, style: theme.statusline },
        draw::Draw::Glyph { x: area.x as int, y, symbol: '▎', style: theme.string },
        draw::Draw::Text { x: x2, y, text: piece, max: right - x2, style },
    ]);
}

/// A piece is drawn where the one before it ends.
pub proof fn law_pieces_follow_each_other(
    piece: (Seq<char>, Style),
    rest: Seq<(Seq<char>, Style)>,
    x: int,
    right: int,
    y: int,
)
    requires
        x < right,
    ensures
        segment_draws(seq![piece] + rest, x, right, y) == seq![
            draw::Draw::Text { x, y, text: piece.0, max: right - x, style: piece.1 },
        ] + segment_draws(rest, x + wrap::advance(piece.0), right, y),
        segments_end(seq![piece] + rest, x, right) == segments_end(
            rest,
            x + wrap::advance(piece.0),
            right,
        ),
        segment_draws(rest, right, right, y).len() == 0,
{
    assert((seq![piece] + rest).skip(1) =~= rest);
}

/// Row `n` of the area shows the line `n` lines behind the one scrolled to; as many rows are filled as
/// there are lines left, and while an answer is awaited the row behind them says so.
pub proof fn law_rows_show_the_lines_of_the_chat(
    all: Seq<Shown>,
    offset: int,
    n: int,
    area: Rect,
    loading: bool,
    theme: Theme,
)
    requires
        0 <= offset,
        0 <= n,
    ensures
        lines_draws(all, offset, n + 1, area, loading, theme) == lines_draws(
            all,
            offset,
            n,
            area,
            loading,
            theme,
        ) + line_draws(
            all[offset + n],
            area,
            area.y + n,
            loading && all.len() >= 2 && offset + n == all.len() - 2 || loading && all.len() < 2
                && offset + n == 0,
            theme,
        ),
        lines_draws(all, offset, 0, area, loading, theme).len() == 0,
        offset + area.height <= all.len() ==> visible_lines(all.len() as int, offset, area)
            == area.height,
        offset <= all.len() && all.len() <= offset + area.height ==> visible_lines(
            all.len() as int,
            offset,
            area,
        ) == all.len() - offset,
        !loading && offset + area.height <= all.len() ==> messages_draws(
            all,
            offset,
            area,
            loading,
            theme,
        ) == lines_draws(all, offset, area.height as int, area, loading, theme),
        loading && offset <= all.len() < offset + area.height ==> messages_draws(
            all,
            offset,
            area,
            loading,
            theme,
        ).last() == (draw::Draw::Text {
            x: area.x + 2,
            y: area.y + (all.len() - offset),
            text: "◌ ◌ ◌  Thinking…"@,
            max: draw::less(area.width as int, 2),
            style: theme.diff_plus,
        }),
{
    let base = lines_draws(all, offset, area.height as int, area, loading, theme);
    assert(base + Seq::<draw::Draw>::empty() =~= base);
}

/// What the assistant says starts outside of code and is formatted in all but two columns; an error
/// is wrapped in as many, in a style of its own. A message without content is a blank line.
pub proof fn law_answers_start_outside_of_code(content: Seq<char>, width: int, st: ChatStyles)
    requires
        width >= 2,
    ensures
        content.len() > 0 ==> content_lines(Said { role: "assistant"@, content }, width, st)
            == formatted_content(lines::lines(content), false, (width - 2) as nat, st.palette),
        content.len() > 0 ==> content_lines(Said { role: "error"@, content }, width, st)
            == plain_content(lines::lines(content), (width - 2) as nat, st.error, false),
        content.len() == 0 ==> content_lines(Said { role: "assistant"@, content }, width, st)
            == seq![Shown::BlankLine],
{
    reveal_strlit("user");
    reveal_strlit("system");
    reveal_strlit("error");
    reveal_strlit("assistant");
    assert("user"@[0] == 'u' && "system"@[0] == 's' && "error"@[0] == 'e' && "assistant"@[0] == 'a');
}

/// Those who speak are told apart by the styles of the theme: headers are bold, and what the system
/// says is in italics.
pub proof fn law_speakers_have_their_styles(theme: Theme)
    ensures
        ({
            let st = ChatStyles::of(theme);
            &&& st.user == theme.text_focus
            &&& st.error == theme.error
            &&& st.system.fg == theme.warning.fg && st.system.add_modifier.italic
            &&& st.system.add_modifier.bold == theme.warning.add_modifier.bold
            &&& st.user_header.fg == theme.text_focus.fg && st.user_header.add_modifier.bold
            &&& st.assistant_header.fg == theme.heading.fg && st.assistant_header.add_modifier.bold
            &&& st.system_header.fg == theme.warning.fg && st.system_header.add_modifier.bold
                && st.system_header.add_modifier.italic
            &&& st.error_header.fg == theme.error.fg && st.error_header.add_modifier.bold
            &&& st.palette.base == theme.text
            &&& st.palette.bold.fg == theme.text.fg && st.palette.bold.add_modifier.bold
            &&& theme.statusline.bg is Some ==> st.palette.code.bg == theme.statusline.bg
            &&& theme.statusline.fg is None ==> st.palette.code.fg == theme.text.fg
            &&& theme.inlay_hint.fg is Some ==> st.palette.inline_code.fg == theme.inlay_hint.fg
            &&& theme.inlay_hint.fg is None ==> st.palette.inline_code.fg == theme.text.fg
        }),
{
}

} // verus!
