//! How the agent overlay is drawn.

use vstd::prelude::*;

use crate::number;
use crate::number::decimal_text;
use crate::text::{chars_of, extend, extend_str, string_of};
use crate::ui::agent_overlay;
use crate::ui::agent_overlay::{AgentOverlay, INPUT_AREA_HEIGHT};
use crate::ui::chat;
use crate::ui::chat::{draw_messages, ChatStyles};
use crate::ui::draw;
use crate::ui::draw::{Canvas, Rect, Style, Theme};
use crate::ui::wrap;

verus! {

broadcast use vstd::string::group_string_axioms;

/// Whether the overlay is drawn at all in an area.
pub open spec fn is_large_enough(area: Rect) -> bool {
    area.width >= 20 && area.height >= 6
}

/// The part of the overlay that shows the messages.
pub open spec fn output_area(area: Rect) -> Rect {
    let inner = area.inside();
    Rect { height: (inner.height - INPUT_AREA_HEIGHT) as u16, ..inner }
}

/// The row of the line between the messages and the input.
pub open spec fn separator_row(area: Rect) -> int {
    output_area(area).y + output_area(area).height
}

/// The row of the input.
pub open spec fn prompt_row(area: Rect) -> int {
    separator_row(area) + 1
}

/// The title: the name of the agent, whether an answer is awaited and how many permission requests
/// wait for review.
pub open spec fn title(name: Seq<char>, loading: bool, pending: int) -> Seq<char> {
    if loading && pending > 0 {
        " "@ + name + " (loading…) ("@ + number::decimal(pending as nat) + " pending) "@
    } else if loading {
        " "@ + name + " (loading…) "@
    } else if pending > 0 {
        " "@ + name + " ("@ + number::decimal(pending as nat) + " pending) "@
    } else {
        " "@ + name + " "@
    }
}

/// The chat with the note on the selected code that its first drawing adds.
pub open spec fn introduced(c: agent_overlay::Chat) -> agent_overlay::Chat {
    match c.context_info {
        Some(info) => if c.messages.len() == 0 {
            c.with_message("system"@, "Selected code from "@ + info)
        } else {
            c
        },
        None => c,
    }
}

/// The chat with the display lines for a width in place.
pub open spec fn laid_out(c: agent_overlay::Chat, width: int, theme: Theme) -> agent_overlay::Chat {
    if c.display_dirty || c.cached_width != width {
        agent_overlay::Chat {
            display_lines: chat::display(c.messages, width, chat::ChatStyles::of(theme)),
            cached_width: width,
            display_dirty: false,
            ..c
        }
    } else {
        c
    }
}

/// The chat with its scroll offset in range: at the end where it is pinned there, else no further
/// than the end.
pub open spec fn scrolled_into_range(c: agent_overlay::Chat, visible: int) -> agent_overlay::Chat {
    let most = draw::less(c.display_lines.len() as int, visible);
    agent_overlay::Chat {
        scroll_offset: if c.pinned_to_bottom {
            most
        } else {
            draw::least(c.scroll_offset, most)
        },
        ..c
    }
}

/// The chat after it is drawn in an area.
pub open spec fn rendered(c: agent_overlay::Chat, area: Rect, theme: Theme) -> agent_overlay::Chat {
    if is_large_enough(area) {
        let out = output_area(area);
        scrolled_into_range(laid_out(introduced(c), out.width as int, theme), out.height as int)
    } else {
        c
    }
}

/// The notes on how many lines lie above and below what is visible.
pub open spec fn indicator_draws(total: int, offset: int, area: Rect, style: Style) -> Seq<
    draw::Draw,
> {
    let above = if offset > 0 {
        seq![
            draw::Draw::Text {
                x: area.x as int,
                y: area.y as int,
                text: "▲ "@ + number::decimal(offset as nat) + " more"@,
                max: area.width as int,
                style,
            },
        ]
    } else {
        Seq::empty()
    };
    let below = if offset + area.height < total {
        seq![
            draw::Draw::Text {
                x: area.x as int,
                y: area.y + draw::less(area.height as int, 1),
                text: "▼ "@ + number::decimal((total - offset - area.height) as nat) + " more"@,
                max: area.width as int,
                style,
            },
        ]
    } else {
        Seq::empty()
    };
    above + below
}

/// A horizontal line of `n` cells from column `x` on.
pub open spec fn rule_draws(x: int, y: int, n: int, style: Style) -> Seq<draw::Draw>
    decreases n,
{
    if n <= 0 {
        Seq::empty()
    } else {
        rule_draws(x, y, n - 1, style).push(
            draw::Draw::Text { x: x + n - 1, y, text: "─"@, max: 1, style },
        )
    }
}

/// What the input line shows: the input, or while there is none a hint.
pub open spec fn prompt_text(input: Seq<char>, loading: bool, pending: int, theme: Theme) -> (
    Seq<char>,
    Style,
) {
    if input.len() == 0 && pending > 0 {
        ("Enter to review pending edit │ type to chat"@, theme.whitespace)
    } else if input.len() == 0 && !loading {
        ("Type a message…"@, theme.whitespace)
    } else {
        (input, theme.text)
    }
}

/// The empty overlay with its border and title.
pub open spec fn head_draws(c: agent_overlay::Chat, area: Rect, theme: Theme, pending: int) -> Seq<
    draw::Draw,
> {
    seq![
        draw::Draw::Clear { area, style: theme.background },
        draw::Draw::Frame {
            area,
            title: Some(title(c.agent_name, c.loading, pending)),
            style: theme.popup_info,
        },
    ]
}

/// The input line.
pub open spec fn prompt_draws(c: agent_overlay::Chat, area: Rect, theme: Theme, pending: int) -> Seq<
    draw::Draw,
> {
    let out = output_area(area);
    let (hint, style) = prompt_text(c.input.text, c.loading, pending, theme);
    seq![
        draw::Draw::Text {
            x: out.x as int,
            y: prompt_row(area),
            text: "❯ "@,
            max: 2,
            style: theme.text_focus,
        },
        draw::Draw::Text {
            x: out.x + 2,
            y: prompt_row(area),
            text: hint,
            max: draw::less(out.width as int, 2),
            style,
        },
    ]
}

/// The steps that draw the overlay, for a chat that is laid out and scrolled.
pub open spec fn overlay_draws(c: agent_overlay::Chat, area: Rect, theme: Theme, pending: int) -> Seq<
    draw::Draw,
> {
    let out = output_area(area);
    head_draws(c, area, theme, pending) + chat::messages_draws(
        c.display_lines,
        c.scroll_offset,
        out,
        c.loading,
        theme,
    ) + indicator_draws(c.display_lines.len() as int, c.scroll_offset, out, theme.whitespace)
        + rule_draws(out.x as int, separator_row(area), out.width as int, theme.popup_info)
        + prompt_draws(c, area, theme, pending)
}

/// The row and the column of the cursor.
pub open spec fn cursor_cell(c: agent_overlay::Chat, area: Rect) -> (int, int) {
    (
        area.y + draw::less(area.height as int, 1 + INPUT_AREA_HEIGHT) + 1,
        area.x + 1 + 2 + wrap::advance(c.input.text.take(c.input.at)),
    )
}

/// The cursor is on the row of the input, behind the prompt.
pub proof fn law_cursor_is_on_the_prompt(c: agent_overlay::Chat, area: Rect)
    requires
        area.wf(),
        is_large_enough(area),
    ensures
        cursor_cell(c, area).0 == prompt_row(area),
        cursor_cell(c, area).1 == output_area(area).x + 2 + wrap::advance(
            c.input.text.take(c.input.at),
        ),
{
}

/// After drawing, the last line is visible where the view is pinned to the bottom, and no blank
/// rows are shown behind it in any case while there are lines above.
pub proof fn law_scroll_stays_in_range(c: agent_overlay::Chat, area: Rect, theme: Theme)
    requires
        area.wf(),
        is_large_enough(area),
        c.scroll_offset >= 0,
    ensures
        ({
            let r = rendered(c, area, theme);
            let visible = output_area(area).height as int;
            let total = r.display_lines.len() as int;
            &&& 0 <= r.scroll_offset <= draw::less(total, visible)
            &&& c.pinned_to_bottom ==> r.scroll_offset + visible >= total
            &&& r.scroll_offset > 0 ==> r.scroll_offset + visible <= total
        }),
{
}

/// Drawing again at once changes nothing.
pub proof fn law_drawing_twice_is_drawing_once(c: agent_overlay::Chat, area: Rect, theme: Theme)
    ensures
        rendered(rendered(c, area, theme), area, theme) == rendered(c, area, theme),
{
}

fn title_text(name: &str, loading: bool, pending: usize) -> (r: String)
    ensures
        r@ == title(name@, loading, pending as int),
{
    let mut t = chars_of(" ");
    extend_str(&mut t, name);
    if loading && pending > 0 {
        extend_str(&mut t, " (loading…) (");
        let n = decimal_text(pending as u64);
        extend(&mut t, &n);
        extend_str(&mut t, " pending) ");
    } else if loading {
        extend_str(&mut t, " (loading…) ");
    } else if pending > 0 {
        extend_str(&mut t, " (");
        let n = decimal_text(pending as u64);
        extend(&mut t, &n);
        extend_str(&mut t, " pending) ");
    } else {
        extend_str(&mut t, " ");
    }
    string_of(&t)
}

fn count_text(head: &str, n: usize) -> (r: Vec<char>)
    ensures
        r@ == head@ + number::decimal(n as nat) + " more"@,
{
    let mut t = chars_of(head);
    let d = decimal_text(n as u64);
    extend(&mut t, &d);
    extend_str(&mut t, " more");
    t
}

fn draw_indicators(canvas: &mut Canvas, total: usize, offset: usize, area: Rect, style: Style)
    requires
        area.wf(),
    ensures
        final(canvas)@ == old(canvas)@ + indicator_draws(total as int, offset as int, area, style),
{
    let ghost start = canvas@;
    if offset > 0 {
        let t = count_text("▲ ", offset);
        canvas.chars(area.x, area.y, &t, area.width as usize, style);
    }
    let hidden: usize = total.saturating_sub(offset);
    if hidden > area.height as usize {
        let t = count_text("▼ ", hidden - area.height as usize);
        let y = area.y + area.height.saturating_sub(1);
        canvas.chars(area.x, y, &t, area.width as usize, style);
    }
    proof {
        assert(canvas@ =~= start + indicator_draws(total as int, offset as int, area, style));
    }
}

fn draw_rule(canvas: &mut Canvas, x: u16, y: u16, n: u16, style: Style)
    requires
        x + n <= u16::MAX,
    ensures
        final(canvas)@ == old(canvas)@ + rule_draws(x as int, y as int, n as int, style),
{
    let ghost start = canvas@;
    let mut k: u16 = 0;
    proof {
        assert(start + rule_draws(x as int, y as int, 0, style) =~= start);
    }
    while k < n
        invariant
            k <= n,
            x + n <= u16::MAX,
            canvas@ == start + rule_draws(x as int, y as int, k as int, style),
        decreases n - k,
    {
        canvas.text(x + k, y, "─", 1, style);
        proof {
            let before = rule_draws(x as int, y as int, k as int, style);
            let cell = draw::Draw::Text { x: x + k, y: y as int, text: "─"@, max: 1, style };
            assert((start + before).push(cell) =~= start + before.push(cell));
        }
        k = k + 1;
    }
}

impl AgentOverlay {
    fn introduce(&mut self)
        requires
            old(self).wf(),
        ensures
            final(self).wf(),
            final(self)@ == introduced(old(self)@),
    {
        proof {
            assert(self@.messages.len() == self.messages@.len());
        }
        if self.messages.len() == 0 {
            let note = match &self.context_info {
                Some(info) => {
                    let mut t = chars_of("Selected code from ");
                    extend_str(&mut t, info.as_str());
                    Some(string_of(&t))
                },
                None => None,
            };
            match note {
                Some(t) => {
                    self.push_message("system", t.as_str());
                },
                None => {},
            }
        }
    }

    fn fit_scroll(&mut self, visible: usize)
        requires
            old(self).wf(),
        ensures
            final(self).wf(),
            final(self)@ == scrolled_into_range(old(self)@, visible as int),
    {
        proof {
            assert(self@.display_lines.len() == self.display_lines@.len());
        }
        let most: usize = self.display_lines.len().saturating_sub(visible);
        if self.pinned_to_bottom || self.scroll_offset > most {
            self.scroll_offset = most;
        }
    }

    /// Draws the overlay, and brings what it shows up to date with the messages and the area.
    pub fn render(&mut self, area: Rect, theme: &Theme, pending: usize) -> (r: Canvas)
        requires
            old(self).wf(),
            area.wf(),
        ensures
            final(self).wf(),
            final(self)@ == rendered(old(self)@, area, *theme),
            r@ == (if is_large_enough(area) {
                overlay_draws(rendered(old(self)@, area, *theme), area, *theme, pending as int)
            } else {
                Seq::empty()
            }),
    {
        let mut canvas = Canvas::new();
        if area.width < 20 || area.height < 6 {
            return canvas;
        }
        self.introduce();
        let inner = area.bordered_inner();
        let out = inner.with_height(inner.height - INPUT_AREA_HEIGHT);
        assert(out == output_area(area));
        if self.display_dirty || self.cached_width != out.width {
            let styles = ChatStyles::new(theme);
            self.recompute_display_lines(out.width, &styles);
        }
        self.fit_scroll(out.height as usize);
        self.draw_head(&mut canvas, area, theme, pending);
        draw_messages(
            &mut canvas,
            &self.display_lines,
            self.scroll_offset,
            out,
            self.loading,
            theme,
        );
        proof {
            assert(self@.display_lines.len() == self.display_lines@.len());
        }
        draw_indicators(
            &mut canvas,
            self.display_lines.len(),
            self.scroll_offset,
            out,
            theme.whitespace,
        );
        draw_rule(&mut canvas, out.x, out.y + out.height, out.width, theme.popup_info);
        self.draw_prompt(&mut canvas, area, theme, pending);
        canvas
    }

    fn draw_head(&self, canvas: &mut Canvas, area: Rect, theme: &Theme, pending: usize)
        requires
            old(canvas)@ == Seq::<draw::Draw>::empty(),
        ensures
            final(canvas)@ == head_draws(self@, area, *theme, pending as int),
    {
        canvas.clear(area, theme.background);
        let heading = title_text(self.agent_name.as_str(), self.loading, pending);
        canvas.titled(area, heading, theme.popup_info);
        proof {
            assert(canvas@ =~= head_draws(self@, area, *theme, pending as int));
        }
    }

    fn draw_prompt(&self, canvas: &mut Canvas, area: Rect, theme: &Theme, pending: usize)
        requires
            area.wf(),
            is_large_enough(area),
        ensures
            final(canvas)@ == old(canvas)@ + prompt_draws(self@, area, *theme, pending as int),
    {
        let ghost start = canvas@;
        let inner = area.bordered_inner();
        let x = inner.x;
        let y = inner.y + (inner.height - INPUT_AREA_HEIGHT) + 1;
        let columns = inner.width.saturating_sub(2) as usize;
        canvas.text(x, y, "❯ ", 2, theme.text_focus);
        if self.input.is_empty() && pending > 0 {
            canvas.text(
                x + 2,
                y,
                "Enter to review pending edit │ type to chat",
                columns,
                theme.whitespace,
            );
        } else if self.input.is_empty() && !self.loading {
            canvas.text(x + 2, y, "Type a message…", columns, theme.whitespace);
        } else {
            canvas.chars(x + 2, y, &self.input.chars, columns, theme.text);
        }
        proof {
            assert(canvas@ =~= start + prompt_draws(self@, area, *theme, pending as int));
        }
    }

    /// The row and the column at which the cursor is shown.
    pub fn cursor(&self, area: Rect) -> (r: (usize, usize))
        requires
            self.wf(),
        ensures
            r.0 == cursor_cell(self@, area).0,
            r.1 == cursor_cell(self@, area).1,
    {
        let row = area.y as usize + area.height.saturating_sub(1 + INPUT_AREA_HEIGHT) as usize + 1;
        let column = area.x as usize + 1 + 2 + self.input.column() % 65536;
        (row, column)
    }

    /// The overlay takes whatever size it is given.
    pub fn required_size(&self, viewport: (u16, u16)) -> (r: Option<(u16, u16)>)
        ensures
            r is None,
    {
        None
    }
}

/// Where the parts of the overlay are: inside the border the messages, below them a rule, and below
/// that, two rows above the border, the input.
pub proof fn law_parts_of_the_overlay(c: agent_overlay::Chat, area: Rect)
    requires
        area.wf(),
        area.width >= 20,
        area.height >= 6,
    ensures
        is_large_enough(area),
        output_area(area) == (Rect {
            x: (area.x + 1) as u16,
            y: (area.y + 1) as u16,
            width: (area.width - 2) as u16,
            height: (area.height - 5) as u16,
        }),
        separator_row(area) == area.y + area.height - 4,
        prompt_row(area) == area.y + area.height - 3,
        cursor_cell(c, area).0 == area.y + area.height - 3,
        cursor_cell(c, area).1 == area.x + 3 + wrap::advance(c.input.text.take(c.input.at)),
{
}

/// What drawing does to the chat: before anything is said, the selected code is announced; the lines
/// are laid out anew where something changed or the width is another; and nothing else changes but
/// the scroll offset, which is at the end where the view is pinned there.
pub proof fn law_drawing_lays_out_the_chat(c: agent_overlay::Chat, area: Rect, theme: Theme)
    requires
        area.wf(),
        area.width >= 20,
        area.height >= 6,
    ensures
        ({
            let r = rendered(c, area, theme);
            let st = chat::ChatStyles::of(theme);
            let announced = c.messages.len() == 0 && c.context_info is Some;
            let fresh = announced || c.display_dirty || c.cached_width != area.width - 2;
            let visible = area.height - 5;
            let total = r.display_lines.len() as int;
            &&& announced ==> r.messages == seq![
                chat::Said { role: "system"@, content: "Selected code from "@ + c.context_info->0 },
            ]
            &&& !announced ==> r.messages == c.messages
            &&& fresh ==> r.display_lines == chat::display(r.messages, area.width - 2, st)
            &&& !fresh ==> r.display_lines == c.display_lines
            &&& r.cached_width == area.width - 2
            &&& !r.display_dirty
            &&& c.pinned_to_bottom && total >= visible ==> r.scroll_offset == total - visible
            &&& c.pinned_to_bottom && total < visible ==> r.scroll_offset == 0
            &&& !c.pinned_to_bottom && c.scroll_offset + visible <= total ==> r.scroll_offset
                == c.scroll_offset
            &&& r.input == c.input && r.loading == c.loading && r.session_id == c.session_id
                && r.agent_id == c.agent_id && r.pinned_to_bottom == c.pinned_to_bottom
                && r.context_code == c.context_code && r.context_info == c.context_info
        }),
{
    if c.messages.len() == 0 && c.context_info is Some {
        let note = chat::Said {
            role: "system"@,
            content: "Selected code from "@ + c.context_info->0,
        };
        assert(c.messages.push(note) =~= seq![note]);
    }
}

/// The title tells the agent, whether an answer is awaited and how many requests wait.
pub proof fn law_title_tells_what_is_awaited(name: Seq<char>, pending: int)
    requires
        pending > 0,
    ensures
        title(name, false, 0) == " "@ + name + " "@,
        title(name, true, 0) == " "@ + name + " (loading…) "@,
        title(name, false, pending) == " "@ + name + " ("@ + number::decimal(pending as nat)
            + " pending) "@,
        title(name, true, pending) == " "@ + name + " (loading…) ("@ + number::decimal(
            pending as nat,
        ) + " pending) "@,
{
}

/// The notes on what lies out of sight: how many lines above, in the first row, and how many below,
/// in the last; none where there is nothing.
pub proof fn law_notes_count_what_is_out_of_sight(total: int, offset: int, area: Rect, style: Style)
    requires
        0 <= offset,
        area.height >= 1,
    ensures
        ({
            let notes = indicator_draws(total, offset, area, style);
            let above = draw::Draw::Text {
                x: area.x as int,
                y: area.y as int,
                text: "▲ "@ + number::decimal(offset as nat) + " more"@,
                max: area.width as int,
                style,
            };
            let below = draw::Draw::Text {
                x: area.x as int,
                y: area.y + area.height - 1,
                text: "▼ "@ + number::decimal((total - offset - area.height) as nat) + " more"@,
                max: area.width as int,
                style,
            };
            &&& offset > 0 && offset + area.height < total ==> notes == seq![above, below]
            &&& offset > 0 && offset + area.height >= total ==> notes == seq![above]
            &&& offset == 0 && area.height < total ==> notes == seq![below]
            &&& offset == 0 && area.height >= total ==> notes.len() == 0
        }),
{
    let notes = indicator_draws(total, offset, area, style);
    if offset > 0 && offset + area.height < total {
        assert(notes =~= seq![notes[0], notes[1]]);
    }
    if offset > 0 && offset + area.height >= total {
        assert(notes =~= seq![notes[0]]);
    }
    if offset == 0 && area.height < total {
        assert(notes =~= seq![notes[0]]);
    }
}

/// The input line shows what is typed; with nothing typed it says what can be done.
pub proof fn law_input_line_shows_the_input(input: Seq<char>, loading: bool, pending: int, theme: Theme)
    ensures
        input.len() > 0 ==> prompt_text(input, loading, pending, theme) == (input, theme.text),
        input.len() == 0 && pending > 0 ==> prompt_text(input, loading, pending, theme) == (
            "Enter to review pending edit │ type to chat"@,
            theme.whitespace,
        ),
        input.len() == 0 && pending <= 0 && !loading ==> prompt_text(
            input,
            loading,
            pending,
            theme,
        ) == ("Type a message…"@, theme.whitespace),
        input.len() == 0 && pending <= 0 && loading ==> prompt_text(
            input,
            loading,
            pending,
            theme,
        ).0.len() == 0,
{
}

proof fn lemma_rule(x: int, y: int, n: int, style: Style, i: int)
    requires
        0 <= n,
    ensures
        rule_draws(x, y, n, style).len() == n,
        0 <= i < n ==> rule_draws(x, y, n, style)[i] == (draw::Draw::Text {
            x: x + i,
            y,
            text: "─"@,
            max: 1,
            style,
        }),
    decreases n,
{
    if n > 0 {
        lemma_rule(x, y, n - 1, style, i);
    }
}

/// What is drawn, in order: the overlay is emptied and framed with its title, then come the messages,
/// the notes on what is out of sight, a rule across the width, and last the prompt and the input.
pub proof fn law_overlay_is_drawn_in_parts(
    c: agent_overlay::Chat,
    area: Rect,
    theme: Theme,
    pending: int,
    i: int,
)
    requires
        area.wf(),
        area.width >= 20,
        area.height >= 6,
    ensures
        ({
            let all = overlay_draws(c, area, theme, pending);
            let n = all.len() as int;
            let out = output_area(area);
            let width = area.width - 2;
            let row = area.y + area.height - 3;
            let messages = chat::messages_draws(
                c.display_lines,
                c.scroll_offset,
                out,
                c.loading,
                theme,
            );
            let notes = indicator_draws(
                c.display_lines.len() as int,
                c.scroll_offset,
                out,
                theme.whitespace,
            );
            let (shown, style) = prompt_text(c.input.text, c.loading, pending, theme);
            &&& n == 2 + messages.len() + notes.len() + width + 2
            &&& all[0] == (draw::Draw::Clear { area, style: theme.background })
            &&& all[1] == (draw::Draw::Frame {
                area,
                title: Some(title(c.agent_name, c.loading, pending)),
                style: theme.popup_info,
            })
            &&& all.subrange(2, 2 + messages.len() as int) == messages
            &&& all.subrange(
                2 + messages.len() as int,
                2 + messages.len() as int + notes.len(),
            ) == notes
            &&& 0 <= i < width ==> all[n - 2 - width + i] == (draw::Draw::Text {
                x: area.x + 1 + i,
                y: row - 1,
                text: "─"@,
                max: 1,
                style: theme.popup_info,
            })
            &&& all[n - 2] == (draw::Draw::Text {
                x: area.x + 1,
                y: row,
                text: "❯ "@,
                max: 2,
                style: theme.text_focus,
            })
            &&& all[n - 1] == (draw::Draw::Text {
                x: area.x + 3,
                y: row,
                text: shown,
                max: width - 2,
                style,
            })
        }),
{
    let all = overlay_draws(c, area, theme, pending);
    let out = output_area(area);
    let messages = chat::messages_draws(c.display_lines, c.scroll_offset, out, c.loading, theme);
    let notes = indicator_draws(
        c.display_lines.len() as int,
        c.scroll_offset,
        out,
        theme.whitespace,
    );
    lemma_rule(out.x as int, separator_row(area), out.width as int, theme.popup_info, i);
    let m = messages.len() as int;
    let k = notes.len() as int;
    assert(all.subrange(2, 2 + m) =~= messages);
    assert(all.subrange(2 + m, 2 + m + k) =~= notes);
}

} // verus!
