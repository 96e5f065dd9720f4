//! How the review of an edit is drawn.

use vstd::prelude::*;

use crate::number;
use crate::number::decimal_text;
use crate::text::{chars_of, extend, extend_str, string_of};
use crate::ui::diff_lines;
use crate::ui::diff_lines::{draw_emphasis, find_segments, DiffLine, WordPair};
use crate::ui::draw;
use crate::ui::draw::{Canvas, Rect, Style, Theme, UnderlineStyle};
use crate::ui::permission_view::PermissionDiffView;
use crate::ui::wrap;

verus! {

broadcast use vstd::string::group_string_axioms;

/// The height of the line with the counts and the rule below it.
pub const HEADER_HEIGHT: u16 = 2;

/// The width of the column with the line numbers.
pub const LINE_NUMBER_WIDTH: u16 = 10;

/// The columns in front of the content of a line.
pub const GUTTER_WIDTH: u16 = 14;

/// Whether more than the border is drawn in an area.
pub open spec fn is_large_enough(area: Rect) -> bool {
    area.inside().width >= 4 && area.inside().height >= 6
}

/// The height of the rule and the hints, with the feedback line where there is one.
pub open spec fn footer_height(feedback_mode: bool) -> int {
    if feedback_mode {
        3
    } else {
        2
    }
}

/// The part that shows the diff.
pub open spec fn diff_area(area: Rect, feedback_mode: bool) -> Rect {
    let inner = area.inside();
    Rect {
        y: (inner.y + HEADER_HEIGHT) as u16,
        height: (inner.height - HEADER_HEIGHT - footer_height(feedback_mode)) as u16,
        ..inner
    }
}

/// The row of the rule above the hints.
pub open spec fn footer_row(area: Rect, feedback_mode: bool) -> int {
    area.inside().y + area.inside().height - footer_height(feedback_mode)
}

/// The counts of the diff, and where the request stands in the queue if it is not alone there.
pub open spec fn stats(additions: int, deletions: int, position: int, total: int) -> Seq<char> {
    let counts = "+"@ + number::decimal(additions as nat) + " -"@ + number::decimal(
        deletions as nat,
    );
    if total > 1 {
        counts + " ("@ + number::decimal(position as nat) + "/"@ + number::decimal(total as nat)
            + ")"@
    } else {
        counts
    }
}

/// A line of `n` dashes.
pub open spec fn dashes(n: nat) -> Seq<char> {
    Seq::new(n, |i: int| '─')
}

/// The style of what changed within a deletion or an addition.
pub open spec fn emphasis(line: DiffLine, theme: Theme) -> Style {
    let base = if line is Deletion {
        theme.diff_minus
    } else {
        theme.diff_plus
    };
    Style { underline_style: Some(UnderlineStyle::Line), ..base.in_bold() }
}

/// A line of the diff in the row `y`, with what changed within it emphasised.
pub open spec fn row_draws(
    lines: Seq<DiffLine>,
    pairs: Seq<WordPair>,
    i: int,
    y: int,
    area: Rect,
    theme: Theme,
) -> Seq<draw::Draw> {
    let row = seq![
        draw::Draw::DiffRow { area, y, index: i, number_width: LINE_NUMBER_WIDTH as int },
    ];
    match diff_lines::segments_for(pairs, i) {
        Some(segments) => row + diff_lines::emphasis_draws(
            segments,
            area.x + GUTTER_WIDTH,
            area.x + area.width,
            y,
            emphasis(lines[i], theme),
        ),
        None => row,
    }
}

/// `n` lines of the diff from `offset` on, from the top of the area down.
pub open spec fn rows_draws(
    lines: Seq<DiffLine>,
    pairs: Seq<WordPair>,
    offset: int,
    n: int,
    area: Rect,
    theme: Theme,
) -> Seq<draw::Draw>
    decreases n,
{
    if n <= 0 {
        Seq::empty()
    } else {
        rows_draws(lines, pairs, offset, n - 1, area, theme) + row_draws(
            lines,
            pairs,
            offset + n - 1,
            area.y + n - 1,
            area,
            theme,
        )
    }
}

/// The empty view with its border and title.
pub open spec fn frame_draws(area: Rect, file: Seq<char>, theme: Theme) -> Seq<draw::Draw> {
    seq![
        draw::Draw::Clear { area, style: theme.background },
        draw::Draw::Frame {
            area,
            title: Some(" Agent Edit: "@ + file + " "@),
            style: theme.popup_info,
        },
    ]
}

/// The line with the counts and the rule below it.
pub open spec fn header_draws(v: PermissionDiffView, area: Rect, theme: Theme) -> Seq<draw::Draw> {
    let inner = area.inside();
    seq![
        draw::Draw::Text {
            x: inner.x as int,
            y: inner.y as int,
            text: stats(
                v.additions as int,
                v.deletions as int,
                v.queue_position as int,
                v.queue_total as int,
            ),
            max: inner.width as int,
            style: theme.text_focus.in_bold(),
        },
        draw::Draw::Text {
            x: inner.x as int,
            y: inner.y + 1,
            text: dashes(inner.width as nat),
            max: inner.width as int,
            style: theme.whitespace,
        },
    ]
}

/// The lines of the diff, and a mark for how far they are scrolled where not all are visible.
pub open spec fn body_draws(
    v: PermissionDiffView,
    pairs: Seq<WordPair>,
    area: Rect,
    theme: Theme,
) -> Seq<draw::Draw> {
    let diff = diff_area(area, v.feedback_mode);
    let total = v.diff_lines@.len() as int;
    let visible = diff.height as int;
    let rows = rows_draws(
        v.diff_lines@,
        pairs,
        v.scroll_offset as int,
        draw::least(visible, total - v.scroll_offset),
        diff,
        theme,
    );
    if total > visible {
        rows.push(
            draw::Draw::Thumb {
                x: diff.x + draw::less(diff.width as int, 1),
                y: diff.y as int,
                height: diff.height as int,
                offset: v.scroll_offset as int,
                most: draw::less(total, visible),
                style: theme.whitespace,
            },
        )
    } else {
        rows
    }
}

/// What can be done, in a line.
pub open spec fn hint(from_overlay: bool) -> Seq<char> {
    if from_overlay {
        "[a]pprove  [x]reject  [X]reject+feedback  [A]always  [Esc] back to chat"@
    } else {
        "[a]pprove  [x]reject  [X]reject+feedback  [A]always  [Esc] defer"@
    }
}

/// The rule and the hints, with the feedback line where there is one.
pub open spec fn footer_draws(v: PermissionDiffView, area: Rect, theme: Theme) -> Seq<draw::Draw> {
    let inner = area.inside();
    let x = inner.x as int;
    let y = footer_row(area, v.feedback_mode);
    let rule = draw::Draw::Text {
        x,
        y,
        text: dashes(inner.width as nat),
        max: inner.width as int,
        style: theme.whitespace,
    };
    if v.feedback_mode {
        seq![
            rule,
            draw::Draw::Text { x, y: y + 1, text: "Feedback: "@, max: 10, style: theme.text_focus },
            draw::Draw::Text {
                x: x + 10,
                y: y + 1,
                text: v.feedback@.text,
                max: draw::less(inner.width as int, 10),
                style: theme.text,
            },
            draw::Draw::Text {
                x,
                y: y + 2,
                text: "[Enter] send  [Esc] cancel"@,
                max: inner.width as int,
                style: theme.whitespace,
            },
        ]
    } else {
        seq![
            rule,
            draw::Draw::Text {
                x,
                y: y + 1,
                text: hint(v.from_overlay),
                max: inner.width as int,
                style: theme.whitespace,
            },
        ]
    }
}

/// The steps that draw the view.
pub open spec fn view_draws(
    v: PermissionDiffView,
    pairs: Seq<WordPair>,
    area: Rect,
    theme: Theme,
) -> Seq<draw::Draw> {
    let frame = frame_draws(area, v.file_path@, theme);
    if is_large_enough(area) {
        frame + header_draws(v, area, theme) + body_draws(v, pairs, area, theme) + footer_draws(
            v,
            area,
            theme,
        )
    } else {
        frame
    }
}

/// The row and the column of the cursor, where feedback is typed.
pub open spec fn cursor_cell(v: PermissionDiffView, area: Rect) -> Option<(int, int)> {
    if v.feedback_mode {
        Some(
            (
                area.y + draw::less(area.height as int, 3),
                area.x + 1 + 10 + wrap::advance(v.feedback@.text.take(v.feedback@.at)),
            ),
        )
    } else {
        None
    }
}

/// The cursor is on the feedback line, behind its label.
pub proof fn law_cursor_is_on_the_feedback_line(v: PermissionDiffView, area: Rect)
    requires
        area.wf(),
        is_large_enough(area),
        v.feedback_mode,
    ensures
        cursor_cell(v, area) == Some(
            (
                footer_row(area, true) + 1,
                area.inside().x + 10 + wrap::advance(v.feedback@.text.take(v.feedback@.at)),
            ),
        ),
{
}

/// The parts of the view lie one below the other and fill the inside of the border.
pub proof fn law_parts_fill_the_view(area: Rect, feedback_mode: bool)
    requires
        area.wf(),
        is_large_enough(area),
    ensures
        ({
            let inner = area.inside();
            let diff = diff_area(area, feedback_mode);
            &&& diff.y == inner.y + HEADER_HEIGHT
            &&& diff.y + diff.height == footer_row(area, feedback_mode)
            &&& footer_row(area, feedback_mode) + footer_height(feedback_mode) == inner.y
                + inner.height
        }),
{
}

fn stats_text(v: &PermissionDiffView) -> (r: Vec<char>)
    ensures
        r@ == stats(
            v.additions as int,
            v.deletions as int,
            v.queue_position as int,
            v.queue_total as int,
        ),
{
    let mut t = chars_of("+");
    let a = decimal_text(v.additions as u64);
    extend(&mut t, &a);
    extend_str(&mut t, " -");
    let d = decimal_text(v.deletions as u64);
    extend(&mut t, &d);
    if v.queue_total > 1 {
        extend_str(&mut t, " (");
        let p = decimal_text(v.queue_position as u64);
        extend(&mut t, &p);
        extend_str(&mut t, "/");
        let n = decimal_text(v.queue_total as u64);
        extend(&mut t, &n);
        extend_str(&mut t, ")");
    }
    t
}

fn dash_line(n: u16) -> (r: Vec<char>)
    ensures
        r@ == dashes(n as nat),
{
    let mut t: Vec<char> = Vec::new();
    let mut i: u16 = 0;
    while i < n
        invariant
            i <= n,
            t@ == dashes(i as nat),
        decreases n - i,
    {
        t.push('─');
        i = i + 1;
        proof {
            assert(t@ =~= dashes(i as nat));
        }
    }
    proof {
        assert(t@ =~= dashes(n as nat));
    }
    t
}

fn emphasis_style(line: &DiffLine, theme: &Theme) -> (r: Style)
    ensures
        r == emphasis(*line, *theme),
{
    let base = match line {
        DiffLine::Deletion { .. } => theme.diff_minus,
        _ => theme.diff_plus,
    };
    base.bold().underlined()
}

fn draw_row(
    canvas: &mut Canvas,
    lines: &Vec<DiffLine>,
    pairs: &Vec<WordPair>,
    i: usize,
    y: u16,
    area: Rect,
    theme: &Theme,
)
    requires
        area.wf(),
        i < lines@.len(),
    ensures
        final(canvas)@ == old(canvas)@ + row_draws(
            lines@,
            pairs@,
            i as int,
            y as int,
            area,
            *theme,
        ),
{
    let ghost start = canvas@;
    canvas.diff_row(area, y, i, LINE_NUMBER_WIDTH);
    match find_segments(pairs, i) {
        Some(segments) => {
            let style = emphasis_style(&lines[i], theme);
            draw_emphasis(
                canvas,
                segments,
                area.x as u32 + GUTTER_WIDTH as u32,
                area.x + area.width,
                y,
                style,
            );
        },
        None => {},
    }
    proof {
        assert(canvas@ =~= start + row_draws(lines@, pairs@, i as int, y as int, area, *theme));
    }
}

impl PermissionDiffView {
    fn draw_header(&self, canvas: &mut Canvas, area: Rect, theme: &Theme)
        requires
            area.wf(),
            is_large_enough(area),
        ensures
            final(canvas)@ == old(canvas)@ + header_draws(*self, area, *theme),
    {
        let ghost start = canvas@;
        let inner = area.bordered_inner();
        let t = stats_text(self);
        canvas.chars(inner.x, inner.y, &t, inner.width as usize, theme.text_focus.bold());
        let rule = dash_line(inner.width);
        canvas.chars(inner.x, inner.y + 1, &rule, inner.width as usize, theme.whitespace);
        proof {
            assert(canvas@ =~= start + header_draws(*self, area, *theme));
        }
    }

    fn draw_body(&self, canvas: &mut Canvas, pairs: &Vec<WordPair>, area: Rect, theme: &Theme)
        requires
            self.wf(),
            area.wf(),
            is_large_enough(area),
        ensures
            final(canvas)@ == old(canvas)@ + body_draws(*self, pairs@, area, *theme),
    {
        let ghost start = canvas@;
        let inner = area.bordered_inner();
        let footer: u16 = if self.feedback_mode {
            3
        } else {
            2
        };
        let diff = Rect {
            x: inner.x,
            y: inner.y + HEADER_HEIGHT,
            width: inner.width,
            height: inner.height - HEADER_HEIGHT - footer,
        };
        assert(diff == diff_area(area, self.feedback_mode));
        let total: usize = self.diff_lines.len();
        let offset: usize = self.scroll_offset;
        let left: usize = total - offset;
        let n: u16 = if left < diff.height as usize {
            left as u16
        } else {
            diff.height
        };
        let mut k: u16 = 0;
        proof {
            assert(start + rows_draws(self.diff_lines@, pairs@, offset as int, 0, diff, *theme)
                =~= start);
        }
        while k < n
            invariant
                k <= n <= diff.height,
                n <= self.diff_lines.len() - offset,
                diff.wf(),
                canvas@ == start + rows_draws(
                    self.diff_lines@,
                    pairs@,
                    offset as int,
                    k as int,
                    diff,
                    *theme,
                ),
            decreases n - k,
        {
            let ghost before = rows_draws(
                self.diff_lines@,
                pairs@,
                offset as int,
                k as int,
                diff,
                *theme,
            );
            let i: usize = offset + k as usize;
            draw_row(canvas, &self.diff_lines, pairs, i, diff.y + k, diff, theme);
            proof {
                let here = row_draws(
                    self.diff_lines@,
                    pairs@,
                    i as int,
                    diff.y + k,
                    diff,
                    *theme,
                );
                assert((start + before) + here =~= start + (before + here));
            }
            k = k + 1;
        }
        if total > diff.height as usize {
            canvas.thumb(
                diff.x + diff.width.saturating_sub(1),
                diff.y,
                diff.height,
                offset,
                self.max_scroll(diff.height as usize),
                theme.whitespace,
            );
        }
        proof {
            assert(canvas@ =~= start + body_draws(*self, pairs@, area, *theme));
        }
    }

    fn draw_footer(&self, canvas: &mut Canvas, area: Rect, theme: &Theme)
        requires
            area.wf(),
            is_large_enough(area),
            self.feedback_mode ==> area.x + 11 <= u16::MAX,
        ensures
            final(canvas)@ == old(canvas)@ + footer_draws(*self, area, *theme),
    {
        let ghost start = canvas@;
        let inner = area.bordered_inner();
        let columns = inner.width as usize;
        let rule = dash_line(inner.width);
        if self.feedback_mode {
            let y = inner.y + (inner.height - 3);
            canvas.chars(inner.x, y, &rule, columns, theme.whitespace);
            canvas.text(inner.x, y + 1, "Feedback: ", 10, theme.text_focus);
            let room = inner.width.saturating_sub(10) as usize;
            canvas.chars(inner.x + 10, y + 1, &self.feedback.chars, room, theme.text);
            canvas.text(inner.x, y + 2, "[Enter] send  [Esc] cancel", columns, theme.whitespace);
        } else {
            let y = inner.y + (inner.height - 2);
            canvas.chars(inner.x, y, &rule, columns, theme.whitespace);
            if self.from_overlay {
                canvas.text(
                    inner.x,
                    y + 1,
                    "[a]pprove  [x]reject  [X]reject+feedback  [A]always  [Esc] back to chat",
                    columns,
                    theme.whitespace,
                );
            } else {
                canvas.text(
                    inner.x,
                    y + 1,
                    "[a]pprove  [x]reject  [X]reject+feedback  [A]always  [Esc] defer",
                    columns,
                    theme.whitespace,
                );
            }
        }
        proof {
            assert(canvas@ =~= start + footer_draws(*self, area, *theme));
        }
    }

    /// Draws the view. `pairs` are the deletions and additions to show as changes within a line.
    pub fn render(&self, pairs: &Vec<WordPair>, area: Rect, theme: &Theme) -> (r: Canvas)
        requires
            self.wf(),
            area.wf(),
            is_large_enough(area) && self.feedback_mode ==> area.x + 11 <= u16::MAX,
        ensures
            r@ == view_draws(*self, pairs@, area, *theme),
    {
        let mut canvas = Canvas::new();
        canvas.clear(area, theme.background);
        let mut t = chars_of(" Agent Edit: ");
        extend_str(&mut t, self.file_path.as_str());
        extend_str(&mut t, " ");
        canvas.titled(area, string_of(&t), theme.popup_info);
        proof {
            assert(canvas@ =~= frame_draws(area, self.file_path@, *theme));
        }
        let inner = area.bordered_inner();
        if inner.width < 4 || inner.height < 6 {
            return canvas;
        }
        self.draw_header(&mut canvas, area, theme);
        self.draw_body(&mut canvas, pairs, area, theme);
        self.draw_footer(&mut canvas, area, theme);
        canvas
    }

    /// The row and the column at which the cursor is shown, while feedback is typed.
    pub fn cursor(&self, area: Rect) -> (r: Option<(usize, usize)>)
        requires
            self.wf(),
        ensures
            match (r, cursor_cell(*self, area)) {
                (Some((row, column)), Some((y, x))) => row == y && column == x,
                (None, None) => true,
                _ => false,
            },
    {
        if self.feedback_mode {
            let row = area.y as usize + area.height.saturating_sub(3) as usize;
            let column = area.x as usize + 1 + 10 + self.feedback.column() % 65536;
            Some((row, column))
        } else {
            None
        }
    }

    /// The view takes whatever size it is given.
    pub fn required_size(&self, viewport: (u16, u16)) -> (r: Option<(u16, u16)>)
        ensures
            r is None,
    {
        None
    }
}

/// Where the parts of the view are: inside the border the counts and a rule, then the diff, then a
/// rule and a line of hints; with the feedback line there is one row less for the diff.
pub proof fn law_parts_of_the_view(area: Rect)
    requires
        area.wf(),
        area.width >= 6,
        area.height >= 8,
    ensures
        is_large_enough(area),
        diff_area(area, false) == (Rect {
            x: (area.x + 1) as u16,
            y: (area.y + 3) as u16,
            width: (area.width - 2) as u16,
            height: (area.height - 6) as u16,
        }),
        diff_area(area, true) == (Rect {
            height: (area.height - 7) as u16,
            ..diff_area(area, false)
        }),
        footer_row(area, false) == area.y + area.height - 3,
        footer_row(area, true) == area.y + area.height - 4,
{
}

/// The counts: additions behind a plus, deletions behind a minus, and the place in the queue where
/// others wait too.
pub proof fn law_counts_are_shown(additions: nat, deletions: nat, position: nat, total: nat)
    ensures
        total <= 1 ==> stats(additions as int, deletions as int, position as int, total as int)
            == "+"@ + number::decimal(additions) + " -"@ + number::decimal(deletions),
        total > 1 ==> stats(additions as int, deletions as int, position as int, total as int)
            == "+"@ + number::decimal(additions) + " -"@ + number::decimal(deletions) + " ("@
            + number::decimal(position) + "/"@ + number::decimal(total) + ")"@,
{
}

/// Row `n` of the diff shows the line `n` lines behind the one scrolled to, at its place; where the
/// line is one side of a pair, what changed within it is emphasised, in the colour of its kind.
pub proof fn law_rows_show_the_diff(
    ls: Seq<DiffLine>,
    pairs: Seq<WordPair>,
    offset: int,
    n: int,
    area: Rect,
    theme: Theme,
)
    requires
        n >= 0,
    ensures
        ({
            let row = draw::Draw::DiffRow { area, y: area.y + n, index: offset + n, number_width: 10 };
            let line = ls[offset + n];
            let color = if line is Deletion {
                theme.diff_minus
            } else {
                theme.diff_plus
            };
            rows_draws(ls, pairs, offset, n + 1, area, theme) == rows_draws(
                ls,
                pairs,
                offset,
                n,
                area,
                theme,
            ) + (match diff_lines::segments_for(pairs, offset + n) {
                Some(pieces) => seq![row] + diff_lines::emphasis_draws(
                    pieces,
                    area.x + 14,
                    area.x + area.width,
                    area.y + n,
                    Style { underline_style: Some(UnderlineStyle::Line), ..color.in_bold() },
                ),
                None => seq![row],
            })
        }),
        rows_draws(ls, pairs, offset, 0, area, theme).len() == 0,
{
}

/// What is drawn, in order: the view is emptied and framed with the name of the file, then come the
/// counts and a rule, the lines of the diff, and a rule with the hints or the feedback below it. A
/// mark shows how far the diff is scrolled where not all of it is visible.
pub proof fn law_view_is_drawn_in_parts(
    v: PermissionDiffView,
    pairs: Seq<WordPair>,
    area: Rect,
    theme: Theme,
)
    requires
        area.wf(),
        area.width >= 6,
        area.height >= 8,
        v.scroll_offset <= v.diff_lines@.len(),
    ensures
        ({
            let all = view_draws(v, pairs, area, theme);
            let n = all.len() as int;
            let visible = area.height - if v.feedback_mode {
                7int
            } else {
                6
            };
            let total = v.diff_lines@.len() as int;
            let count = if total - v.scroll_offset < visible {
                total - v.scroll_offset
            } else {
                visible
            };
            let diff = diff_area(area, v.feedback_mode);
            let rows = rows_draws(
                v.diff_lines@,
                pairs,
                v.scroll_offset as int,
                count,
                diff,
                theme,
            );
            let m = rows.len() as int;
            let bottom = area.y + area.height - 2;
            &&& all[0] == (draw::Draw::Clear { area, style: theme.background })
            &&& all[1] == (draw::Draw::Frame {
                area,
                title: Some(" Agent Edit: "@ + v.file_path@ + " "@),
                style: theme.popup_info,
            })
            &&& all[2] == (draw::Draw::Text {
                x: area.x + 1,
                y: area.y + 1,
                text: stats(
                    v.additions as int,
                    v.deletions as int,
                    v.queue_position as int,
                    v.queue_total as int,
                ),
                max: area.width - 2,
                style: theme.text_focus.in_bold(),
            })
            &&& all.subrange(4, 4 + m) == rows
            &&& total > visible ==> all[4 + m] == (draw::Draw::Thumb {
                x: area.x + area.width - 2,
                y: area.y + 3,
                height: visible,
                offset: v.scroll_offset as int,
                most: total - visible,
                style: theme.whitespace,
            })
            &&& !v.feedback_mode ==> n == 4 + m + (if total > visible {
                1int
            } else {
                0
            }) + 2 && all[n - 1] == (draw::Draw::Text {
                x: area.x + 1,
                y: bottom,
                text: if v.from_overlay {
                    "[a]pprove  [x]reject  [X]reject+feedback  [A]always  [Esc] back to chat"@
                } else {
                    "[a]pprove  [x]reject  [X]reject+feedback  [A]always  [Esc] defer"@
                },
                max: area.width - 2,
                style: theme.whitespace,
            })
            &&& v.feedback_mode ==> n == 4 + m + (if total > visible {
                1int
            } else {
                0
            }) + 4 && all[n - 3] == (draw::Draw::Text {
                x: area.x + 1,
                y: bottom - 1,
                text: "Feedback: "@,
                max: 10,
                style: theme.text_focus,
            }) && all[n - 2] == (draw::Draw::Text {
                x: area.x + 11,
                y: bottom - 1,
                text: v.feedback@.text,
                max: draw::less(area.width - 2, 10),
                style: theme.text,
            }) && all[n - 1] == (draw::Draw::Text {
                x: area.x + 1,
                y: bottom,
                text: "[Enter] send  [Esc] cancel"@,
                max: area.width - 2,
                style: theme.whitespace,
            })
        }),
{
    law_parts_of_the_view(area);
    let all = view_draws(v, pairs, area, theme);
    let visible = area.height - if v.feedback_mode {
        7int
    } else {
        6
    };
    let total = v.diff_lines@.len() as int;
    let count = draw::least(visible, total - v.scroll_offset);
    let diff = diff_area(area, v.feedback_mode);
    assert(diff.height == visible);
    let rows = rows_draws(v.diff_lines@, pairs, v.scroll_offset as int, count, diff, theme);
    let m = rows.len() as int;
    assert(all.subrange(4, 4 + m) =~= rows);
}

/// A rule as wide as the view parts the counts from the diff.
pub proof fn law_rule_is_as_wide_as_the_view(v: PermissionDiffView, area: Rect, theme: Theme)
    requires
        area.wf(),
        area.width >= 2,
        area.height >= 2,
    ensures
        header_draws(v, area, theme)[1] == (draw::Draw::Text {
            x: area.x + 1,
            y: area.y + 2,
            text: Seq::new((area.width - 2) as nat, |i: int| '─'),
            max: area.width - 2,
            style: theme.whitespace,
        }),
        header_draws(v, area, theme).len() == 2,
{
    assert(dashes((area.width - 2) as nat) =~= Seq::new((area.width - 2) as nat, |i: int| '─'));
}

} // verus!
