//! The view that shows a file with the commit behind each of its lines.

use vstd::prelude::*;

use crate::git::status::BlameLine;
use crate::number;
use crate::number::decimal_text;
use crate::text::{chars_of, extend, extend_str, piece, same_str, string_of};
use crate::ui::draw;
use crate::ui::draw::{Canvas, Color, Rect, Style, Theme};
use crate::ui::keys::{Event, Key, KeyCode};

verus! {

broadcast use vstd::string::group_string_axioms;

/// Fixed width for the blame annotation column (hash + author + date).
pub const ANNOTATION_WIDTH: u16 = 35;

/// Width for the line number column (e.g., " 1234 ").
pub const LINE_NUM_WIDTH: u16 = 5;

/// Width for a single separator character ("│").
pub const SEPARATOR_WIDTH: u16 = 1;

/// Where the content of a line starts: behind the two columns and their separators.
pub const CONTENT_START: u16 = 42;

/// Maximum display length for author names.
pub const MAX_AUTHOR_LEN: usize = 10;

/// Maximum display length for relative dates.
pub const MAX_DATE_LEN: usize = 8;

// ---------------------------------------------------------------------------------------------
// Strings
// ---------------------------------------------------------------------------------------------

/// `n` spaces.
pub open spec fn spaces(n: int) -> Seq<char> {
    if n <= 0 {
        Seq::empty()
    } else {
        Seq::new(n as nat, |i: int| ' ')
    }
}

/// At most the first `n` characters.
pub open spec fn truncated(s: Seq<char>, n: int) -> Seq<char> {
    if s.len() <= n {
        s
    } else {
        s.take(n)
    }
}

/// `s` with spaces in front, up to `width` characters.
pub open spec fn right_aligned(s: Seq<char>, width: int) -> Seq<char> {
    spaces(width - s.len()) + s
}

/// Exactly `width` characters: the first of `s`, or `s` with spaces behind it.
pub open spec fn fitted(s: Seq<char>, width: int) -> Seq<char> {
    if s.len() > width {
        s.take(width)
    } else {
        s + spaces(width - s.len())
    }
}

/// Padding or truncating gives exactly as many characters as asked for.
pub proof fn law_fitted_has_the_width(s: Seq<char>, width: int)
    requires
        width >= 0,
    ensures
        fitted(s, width).len() == width,
        truncated(s, width).len() <= width,
{
}

fn push_spaces(t: &mut Vec<char>, n: usize)
    ensures
        final(t)@ == old(t)@ + spaces(n as int),
{
    let ghost start = t@;
    let mut k: usize = 0;
    proof {
        assert(start + spaces(0) =~= start);
    }
    while k < n
        invariant
            k <= n,
            t@ == start + spaces(k as int),
        decreases n - k,
    {
        t.push(' ');
        proof {
            assert((start + spaces(k as int)).push(' ') =~= start + spaces(k + 1));
        }
        k = k + 1;
    }
}

/// Truncate `s` to at most `max_len` characters.
pub fn truncate_str(s: &str, max_len: usize) -> (r: String)
    ensures
        r@ == truncated(s@, max_len as int),
{
    let t = chars_of(s);
    if t.len() <= max_len {
        string_of(&t)
    } else {
        let head = piece(&t, 0, max_len);
        proof {
            assert(head@ =~= s@.take(max_len as int));
        }
        string_of(&head)
    }
}

/// Pad or truncate `s` to exactly `width` characters (left-aligned).
pub fn fit_to_width(s: &str, width: usize) -> (r: String)
    ensures
        r@ == fitted(s@, width as int),
        r@.len() == width,
{
    let mut t = chars_of(s);
    if t.len() > width {
        let head = piece(&t, 0, width);
        proof {
            assert(head@ =~= s@.take(width as int));
        }
        string_of(&head)
    } else {
        let n: usize = width - t.len();
        push_spaces(&mut t, n);
        string_of(&t)
    }
}

pub(crate) fn push_right(t: &mut Vec<char>, s: &Vec<char>, width: usize)
    ensures
        final(t)@ == old(t)@ + right_aligned(s@, width as int),
{
    let ghost start = t@;
    let n: usize = width.saturating_sub(s.len());
    push_spaces(t, n);
    extend(t, s);
    proof {
        assert(t@ =~= start + right_aligned(s@, width as int));
    }
}

// ---------------------------------------------------------------------------------------------
// The view
// ---------------------------------------------------------------------------------------------

/// Full-screen blame view showing file content with per-line blame annotations.
///
/// Layout per row:
/// ```text
/// │ a1b2c3d Alice    2h ago │  1 │ fn main() {
/// │ a1b2c3d Alice    2h ago │  2 │     let x = 42;
/// │         (continuation)  │  3 │     println!("{}", x);
/// │ f4e5d6c Bob     3d ago  │  4 │ }
/// ```
///
/// Consecutive lines from the same commit are grouped: only the first line in a group shows the
/// annotation; continuation lines show a dimmed separator.
pub struct BlameView {
    /// Blame data for each line (1:1 with file lines).
    pub blame_lines: Vec<BlameLine>,
    /// File name shown in the header.
    pub file_name: String,
    /// Current scroll offset (0-indexed top-of-viewport line).
    pub scroll: usize,
    /// Currently selected line (0-indexed).
    pub selected_line: usize,
    /// Visible line count from the last render pass.
    pub visible_lines: usize,
}

/// Where the view stands.
pub struct Position {
    pub scroll: int,
    pub selected: int,
    pub visible: int,
}

/// What the view asks for after an event.
#[derive(Debug, Clone, Copy, PartialEq, Eq, Structural)]
pub enum BlameAction {
    /// The event is not for the view.
    Ignored,
    /// The event is dealt with.
    Consumed,
    /// Close the view.
    Close,
}

impl Position {
    /// Whether the selected line is visible.
    pub open spec fn shows_selection(self) -> bool {
        self.scroll <= self.selected < self.scroll + self.visible
    }

    /// The selection `n` lines up; the view follows it.
    pub open spec fn up(self, n: int) -> Position {
        let selected = draw::less(self.selected, n);
        Position { selected, scroll: draw::least(self.scroll, selected), ..self }
    }

    /// The selection `n` lines down, but not behind the last of `total`; the view follows it.
    pub open spec fn down(self, n: int, total: int) -> Position {
        let selected = draw::least(self.selected + n, draw::less(total, 1));
        Position {
            selected,
            scroll: if selected >= self.scroll + self.visible {
                draw::less(selected, self.visible) + 1
            } else {
                self.scroll
            },
            ..self
        }
    }

    /// The selection on the first line.
    pub open spec fn at_start(self) -> Position {
        Position { selected: 0, scroll: 0, ..self }
    }

    /// The selection on the last of `total` lines.
    pub open spec fn at_end(self, total: int) -> Position {
        let selected = draw::less(total, 1);
        Position {
            selected,
            scroll: if selected >= self.visible {
                selected - self.visible + 1
            } else {
                self.scroll
            },
            ..self
        }
    }
}

/// The position after a key, with `total` lines.
pub open spec fn position_after(p: Position, key: Key, total: int) -> Position {
    match key.code {
        KeyCode::Up => p.up(1),
        KeyCode::Down => p.down(1, total),
        KeyCode::PageUp => p.up(p.visible),
        KeyCode::PageDown => p.down(p.visible, total),
        KeyCode::Home => p.at_start(),
        KeyCode::End => p.at_end(total),
        KeyCode::Char(c) => if c == 'k' {
            p.up(1)
        } else if c == 'j' {
            p.down(1, total)
        } else if c == 'g' {
            p.at_start()
        } else if c == 'G' {
            p.at_end(total)
        } else {
            p
        },
        _ => p,
    }
}

/// What the view asks for after a key.
pub open spec fn asked_after(key: Key) -> BlameAction {
    match key.code {
        KeyCode::Esc => BlameAction::Close,
        KeyCode::Char(c) => if c == 'q' {
            BlameAction::Close
        } else if c == 'k' || c == 'j' || c == 'g' || c == 'G' {
            BlameAction::Consumed
        } else {
            BlameAction::Ignored
        },
        KeyCode::Up => BlameAction::Consumed,
        KeyCode::Down => BlameAction::Consumed,
        KeyCode::PageUp => BlameAction::Consumed,
        KeyCode::PageDown => BlameAction::Consumed,
        KeyCode::Home => BlameAction::Consumed,
        KeyCode::End => BlameAction::Consumed,
        _ => BlameAction::Ignored,
    }
}

/// Whether the position is one that a view of `total` lines can have.
pub open spec fn is_position(p: Position, total: int) -> bool {
    0 <= p.scroll <= p.selected <= draw::less(total, 1) && p.visible >= 1
}

/// Whatever key is pressed, the selection stays on a line and in sight.
pub proof fn law_selection_stays_in_sight(p: Position, key: Key, total: int)
    requires
        total >= 0,
        is_position(p, total),
        p.shows_selection(),
    ensures
        is_position(position_after(p, key, total), total),
        position_after(p, key, total).shows_selection(),
{
}

/// The annotation of a line: hash, author and date, or for a line of the same commit as the one
/// above only a separator.
pub open spec fn annotation(line: BlameLine, is_first_in_group: bool) -> Seq<char> {
    if is_first_in_group {
        line.short_hash@ + seq![' '] + right_aligned(
            truncated(line.author@, MAX_AUTHOR_LEN as int),
            10,
        ) + seq![' '] + right_aligned(
            truncated(line.relative_date@, MAX_DATE_LEN as int),
            8,
        )
    } else {
        right_aligned(seq!['│'], ANNOTATION_WIDTH as int)
    }
}

/// Whether line `i` comes from another commit than the line above it.
pub open spec fn starts_group(lines: Seq<BlameLine>, i: int) -> bool {
    i == 0 || lines[i].hash@ != lines[i - 1].hash@
}

/// A muted colour for a commit, from the bytes of its hash.
pub open spec fn commit_color(bytes: Seq<u8>) -> Color {
    if bytes.len() < 6 {
        Color::Gray
    } else {
        Color::Rgb(
            (80 + bytes[0] % 100) as u8,
            (80 + bytes[2] % 100) as u8,
            (80 + bytes[4] % 100) as u8,
        )
    }
}

/// The colour of a commit is neither too bright nor too dark.
pub proof fn law_commit_color_is_muted(bytes: Seq<u8>)
    ensures
        commit_color(bytes) matches Color::Rgb(r, g, b) ==> 80 <= r <= 179 && 80 <= g <= 179 && 80
            <= b <= 179,
{
}

/// A style with the selection put over it where the line is selected.
pub open spec fn over_selection(style: Style, selected: bool, theme: Theme) -> Style {
    if selected {
        style.under(theme.cursor)
    } else {
        style
    }
}

/// A line of the file in the row `y`.
pub open spec fn row_draws(
    lines: Seq<BlameLine>,
    i: int,
    selected: bool,
    area: Rect,
    y: int,
    theme: Theme,
) -> Seq<draw::Draw> {
    let line = lines[i];
    let first = starts_group(lines, i);
    let color = if first {
        commit_color(vstd::utf8::encode_utf8(line.hash@))
    } else {
        Color::Gray
    };
    let bar = Style { fg: Some(Color::Gray), ..Style::plain() };
    let x = area.x as int;
    seq![
        draw::Draw::Text {
            x,
            y,
            text: fitted(annotation(line, first), ANNOTATION_WIDTH as int),
            max: ANNOTATION_WIDTH as int,
            style: over_selection(
                Style { fg: Some(color), ..Style::plain() },
                selected,
                theme,
            ),
        },
        draw::Draw::Text { x: x + ANNOTATION_WIDTH, y, text: "│"@, max: 1, style: bar },
        draw::Draw::Text {
            x: x + ANNOTATION_WIDTH + SEPARATOR_WIDTH,
            y,
            text: right_aligned(number::decimal(line.line_no as nat), 4) + seq![' '],
            max: LINE_NUM_WIDTH as int,
            style: over_selection(theme.line_number, selected, theme),
        },
        draw::Draw::Text {
            x: x + ANNOTATION_WIDTH + SEPARATOR_WIDTH + LINE_NUM_WIDTH,
            y,
            text: "│"@,
            max: 1,
            style: bar,
        },
        draw::Draw::Text {
            x: x + CONTENT_START,
            y,
            text: line.content@,
            max: draw::less(area.width as int, CONTENT_START as int),
            style: over_selection(Style::plain(), selected, theme),
        },
    ]
}

/// `n` lines of the file from `scroll` on, from the top of the area down.
pub open spec fn rows_draws(
    lines: Seq<BlameLine>,
    scroll: int,
    selected: int,
    n: int,
    area: Rect,
    theme: Theme,
) -> Seq<draw::Draw>
    decreases n,
{
    if n <= 0 {
        Seq::empty()
    } else {
        rows_draws(lines, scroll, selected, n - 1, area, theme) + row_draws(
            lines,
            scroll + n - 1,
            scroll + n - 1 == selected,
            area,
            area.y + n - 1,
            theme,
        )
    }
}

/// Whether the view is drawn at all in an area.
pub open spec fn is_large_enough(area: Rect) -> bool {
    area.width >= 20 && area.height >= 3
}

/// The steps that draw the view.
pub open spec fn view_draws(
    lines: Seq<BlameLine>,
    file: Seq<char>,
    p: Position,
    area: Rect,
    theme: Theme,
) -> Seq<draw::Draw> {
    let inner = area.inside();
    seq![
        draw::Draw::Frame {
            area,
            title: Some(
                " Blame: "@ + file + " ("@ + number::decimal(lines.len()) + " lines) "@,
            ),
            style: theme.statusline,
        },
    ] + rows_draws(
        lines,
        p.scroll,
        p.selected,
        draw::least(inner.height as int, draw::less(lines.len() as int, p.scroll)),
        inner,
        theme,
    )
}

impl BlameView {
    /// Where the view stands.
    pub open spec fn position(&self) -> Position {
        Position {
            scroll: self.scroll as int,
            selected: self.selected_line as int,
            visible: self.visible_lines as int,
        }
    }

    /// The selection is on a line, and the view starts at or above it.
    pub open spec fn wf(&self) -> bool {
        is_position(self.position(), self.blame_lines@.len() as int)
    }

    /// A view of the lines with the selection on `cursor_line`, or on the last line where there
    /// is no such line.
    pub fn new(blame_lines: Vec<BlameLine>, file_name: String, cursor_line: usize) -> (r: BlameView)
        ensures
            r.wf(),
            r.blame_lines == blame_lines,
            r.file_name == file_name,
            r.position() == ({
                let selected = draw::least(
                    cursor_line as int,
                    draw::less(blame_lines@.len() as int, 1),
                );
                Position { scroll: draw::less(selected, 10), selected, visible: 20 }
            }),
            r.position().shows_selection(),
    {
        let last: usize = blame_lines.len().saturating_sub(1);
        let selected_line: usize = if cursor_line <= last {
            cursor_line
        } else {
            last
        };
        BlameView {
            blame_lines,
            file_name,
            scroll: selected_line.saturating_sub(10),
            selected_line,
            visible_lines: 20,
        }
    }

    /// Format a blame annotation for a single line.
    ///
    /// For the first line in a commit group the annotation shows
    /// `<short_hash> <author> <relative_date>`. Continuation lines within the same group show only
    /// a dimmed separator to reduce visual noise.
    pub fn format_annotation(line: &BlameLine, is_first_in_group: bool) -> (r: String)
        ensures
            r@ == annotation(*line, is_first_in_group),
    {
        if !is_first_in_group {
            let bar: Vec<char> = vec!['│'];
            let mut t: Vec<char> = Vec::new();
            push_right(&mut t, &bar, ANNOTATION_WIDTH as usize);
            proof {
                assert(bar@ =~= seq!['│']);
                assert(t@ =~= annotation(*line, is_first_in_group));
            }
            return string_of(&t);
        }
        let author = truncate_str(line.author.as_str(), MAX_AUTHOR_LEN);
        let date = truncate_str(line.relative_date.as_str(), MAX_DATE_LEN);
        let author_chars = chars_of(author.as_str());
        let date_chars = chars_of(date.as_str());
        let mut t = chars_of(line.short_hash.as_str());
        t.push(' ');
        push_right(&mut t, &author_chars, 10);
        t.push(' ');
        push_right(&mut t, &date_chars, 8);
        proof {
            assert(t@ =~= annotation(*line, is_first_in_group));
        }
        string_of(&t)
    }

    /// Returns `true` when `index` is the first line of a new blame group (i.e. a different commit
    /// than the previous line).
    pub fn is_first_in_group(&self, index: usize) -> (r: bool)
        requires
            index < self.blame_lines@.len(),
        ensures
            r == starts_group(self.blame_lines@, index as int),
    {
        if index == 0 {
            return true;
        }
        !same_str(self.blame_lines[index].hash.as_str(), self.blame_lines[index - 1].hash.as_str())
    }

    /// Derive a deterministic muted colour from a commit hash.
    ///
    /// The first six bytes of the hash string are mapped into the RGB range 80–179 so the
    /// resulting colour is neither too bright nor too dark.
    pub fn hash_color(hash: &str) -> (r: Color)
        ensures
            r == commit_color(vstd::utf8::encode_utf8(hash@)),
    {
        let bytes = hash.as_bytes();
        if bytes.len() < 6 {
            return Color::Gray;
        }
        Color::Rgb(80 + (bytes[0] % 100), 80 + (bytes[2] % 100), 80 + (bytes[4] % 100))
    }

    /// Moves the selection up.
    pub fn scroll_up(&mut self, count: usize)
        requires
            old(self).wf(),
        ensures
            final(self).wf(),
            final(self).blame_lines == old(self).blame_lines,
            final(self).file_name == old(self).file_name,
            final(self).position() == old(self).position().up(count as int),
    {
        self.selected_line = self.selected_line.saturating_sub(count);
        if self.selected_line < self.scroll {
            self.scroll = self.selected_line;
        }
    }

    /// Moves the selection down.
    pub fn scroll_down(&mut self, count: usize)
        requires
            old(self).wf(),
        ensures
            final(self).wf(),
            final(self).blame_lines == old(self).blame_lines,
            final(self).file_name == old(self).file_name,
            final(self).position() == old(self).position().down(
                count as int,
                old(self).blame_lines@.len() as int,
            ),
    {
        let last: usize = self.blame_lines.len().saturating_sub(1);
        self.selected_line = if count <= last - self.selected_line {
            self.selected_line + count
        } else {
            last
        };
        if self.selected_line - self.scroll >= self.visible_lines {
            self.scroll = self.selected_line.saturating_sub(self.visible_lines) + 1;
        }
    }

    /// Moves the selection to the first line.
    pub fn jump_to_start(&mut self)
        requires
            old(self).wf(),
        ensures
            final(self).wf(),
            final(self).blame_lines == old(self).blame_lines,
            final(self).file_name == old(self).file_name,
            final(self).position() == old(self).position().at_start(),
    {
        self.selected_line = 0;
        self.scroll = 0;
    }

    /// Moves the selection to the last line.
    pub fn jump_to_end(&mut self)
        requires
            old(self).wf(),
        ensures
            final(self).wf(),
            final(self).blame_lines == old(self).blame_lines,
            final(self).file_name == old(self).file_name,
            final(self).position() == old(self).position().at_end(
                old(self).blame_lines@.len() as int,
            ),
    {
        self.selected_line = self.blame_lines.len().saturating_sub(1);
        if self.selected_line >= self.visible_lines {
            self.scroll = self.selected_line - self.visible_lines + 1;
        }
    }

    fn draw_row(&self, canvas: &mut Canvas, i: usize, area: Rect, y: u16, theme: &Theme)
        requires
            i < self.blame_lines@.len(),
            area.x + CONTENT_START <= u16::MAX,
        ensures
            final(canvas)@ == old(canvas)@ + row_draws(
                self.blame_lines@,
                i as int,
                i == self.selected_line,
                area,
                y as int,
                *theme,
            ),
    {
        let ghost start = canvas@;
        let line = &self.blame_lines[i];
        let selected = i == self.selected_line;
        let first = self.is_first_in_group(i);
        let color = if first {
            BlameView::hash_color(line.hash.as_str())
        } else {
            Color::Gray
        };
        let plain = Style::new();
        let note = BlameView::format_annotation(line, first);
        let shown = fit_to_width(note.as_str(), ANNOTATION_WIDTH as usize);
        let colored = plain.with_fg(color);
        let bar = plain.with_fg(Color::Gray);
        canvas.text(
            area.x,
            y,
            shown.as_str(),
            ANNOTATION_WIDTH as usize,
            if selected {
                colored.patch(theme.cursor)
            } else {
                colored
            },
        );
        canvas.text(area.x + ANNOTATION_WIDTH, y, "│", 1, bar);
        let mut number_text: Vec<char> = Vec::new();
        let digits = decimal_text(line.line_no as u64);
        push_right(&mut number_text, &digits, 4);
        number_text.push(' ');
        proof {
            assert(number_text@ =~= right_aligned(number::decimal(line.line_no as nat), 4) + seq![
                ' ',
            ]);
        }
        canvas.chars(
            area.x + ANNOTATION_WIDTH + SEPARATOR_WIDTH,
            y,
            &number_text,
            LINE_NUM_WIDTH as usize,
            if selected {
                theme.line_number.patch(theme.cursor)
            } else {
                theme.line_number
            },
        );
        canvas.text(
            area.x + ANNOTATION_WIDTH + SEPARATOR_WIDTH + LINE_NUM_WIDTH,
            y,
            "│",
            1,
            bar,
        );
        canvas.text(
            area.x + CONTENT_START,
            y,
            line.content.as_str(),
            area.width.saturating_sub(CONTENT_START) as usize,
            if selected {
                plain.patch(theme.cursor)
            } else {
                plain
            },
        );
        proof {
            assert(canvas@ =~= start + row_draws(
                self.blame_lines@,
                i as int,
                selected,
                area,
                y as int,
                *theme,
            ));
        }
    }

    /// Draws the view, and takes note of how many lines are visible.
    pub fn render(&mut self, area: Rect, theme: &Theme) -> (r: Canvas)
        requires
            old(self).wf(),
            area.wf(),
            is_large_enough(area) && old(self).scroll < old(self).blame_lines@.len() ==> area.x + 1
                + CONTENT_START <= u16::MAX,
        ensures
            final(self).wf(),
            final(self).blame_lines == old(self).blame_lines,
            final(self).file_name == old(self).file_name,
            final(self).position() == (if is_large_enough(area) {
                Position { visible: area.inside().height as int, ..old(self).position() }
            } else {
                old(self).position()
            }),
            r@ == (if is_large_enough(area) {
                view_draws(
                    old(self).blame_lines@,
                    old(self).file_name@,
                    old(self).position(),
                    area,
                    *theme,
                )
            } else {
                Seq::empty()
            }),
    {
        let mut canvas = Canvas::new();
        if area.width < 20 || area.height < 3 {
            return canvas;
        }
        let mut t = chars_of(" Blame: ");
        extend_str(&mut t, self.file_name.as_str());
        extend_str(&mut t, " (");
        let count = decimal_text(self.blame_lines.len() as u64);
        extend(&mut t, &count);
        extend_str(&mut t, " lines) ");
        canvas.titled(area, string_of(&t), theme.statusline);
        let inner = area.bordered_inner();
        self.visible_lines = inner.height as usize;
        let left: usize = self.blame_lines.len().saturating_sub(self.scroll);
        let n: u16 = if left < inner.height as usize {
            left as u16
        } else {
            inner.height
        };
        let ghost start = canvas@;
        let mut k: u16 = 0;
        proof {
            assert(start + rows_draws(
                self.blame_lines@,
                self.scroll as int,
                self.selected_line as int,
                0,
                inner,
                *theme,
            ) =~= start);
        }
        while k < n
            invariant
                k <= n <= inner.height,
                n <= self.blame_lines.len() - self.scroll || n == 0,
                inner.wf(),
                k < n ==> inner.x + CONTENT_START <= u16::MAX,
                canvas@ == start + rows_draws(
                    self.blame_lines@,
                    self.scroll as int,
                    self.selected_line as int,
                    k as int,
                    inner,
                    *theme,
                ),
            decreases n - k,
        {
            let ghost before = rows_draws(
                self.blame_lines@,
                self.scroll as int,
                self.selected_line as int,
                k as int,
                inner,
                *theme,
            );
            let i: usize = self.scroll + k as usize;
            self.draw_row(&mut canvas, i, inner, inner.y + k, theme);
            proof {
                let here = row_draws(
                    self.blame_lines@,
                    i as int,
                    i == self.selected_line,
                    inner,
                    inner.y + k,
                    *theme,
                );
                assert((start + before) + here =~= start + (before + here));
            }
            k = k + 1;
        }
        proof {
            assert(canvas@ =~= view_draws(
                self.blame_lines@,
                self.file_name@,
                old(self).position(),
                area,
                *theme,
            ));
        }
        canvas
    }

    /// Answers an event.
    pub fn handle_event(&mut self, event: &Event) -> (r: BlameAction)
        requires
            old(self).wf(),
        ensures
            final(self).wf(),
            final(self).blame_lines == old(self).blame_lines,
            final(self).file_name == old(self).file_name,
            match event {
                Event::Key(key) => final(self).position() == position_after(
                    old(self).position(),
                    *key,
                    old(self).blame_lines@.len() as int,
                ) && r == asked_after(*key),
                _ => final(self).position() == old(self).position() && r == BlameAction::Ignored,
            },
    {
        let key = match event {
            Event::Key(key) => *key,
            _ => {
                return BlameAction::Ignored;
            },
        };
        match key.code {
            KeyCode::Esc | KeyCode::Char('q') => {
                return BlameAction::Close;
            },
            KeyCode::Up | KeyCode::Char('k') => {
                self.scroll_up(1);
            },
            KeyCode::Down | KeyCode::Char('j') => {
                self.scroll_down(1);
            },
            KeyCode::PageUp => {
                let n = self.visible_lines;
                self.scroll_up(n);
            },
            KeyCode::PageDown => {
                let n = self.visible_lines;
                self.scroll_down(n);
            },
            KeyCode::Home | KeyCode::Char('g') => {
                self.jump_to_start();
            },
            KeyCode::End | KeyCode::Char('G') => {
                self.jump_to_end();
            },
            _ => {
                return BlameAction::Ignored;
            },
        }
        BlameAction::Consumed
    }
}

/// Fitting, cutting and aligning keep the characters: cutting keeps the first, fitting puts blanks
/// behind them and aligning puts blanks in front.
pub proof fn law_fitting_keeps_the_start(s: Seq<char>, width: int)
    requires
        width >= 0,
    ensures
        forall|i: int|
            0 <= i < width ==> #[trigger] fitted(s, width)[i] == (if i < s.len() {
                s[i]
            } else {
                ' '
            }),
        s.len() <= width ==> truncated(s, width) == s,
        s.len() > width ==> truncated(s, width) == s.take(width),
        s.len() <= width ==> right_aligned(s, width).len() == width && right_aligned(
            s,
            width,
        ).skip(width - s.len()) == s,
        forall|i: int| 0 <= i < width - s.len() ==> #[trigger] right_aligned(s, width)[i] == ' ',
{
    if s.len() <= width {
        assert(right_aligned(s, width).skip(width - s.len()) =~= s);
    }
}

/// The keys of the view: k and Up select the line above, j and Down the one below, the page keys as
/// many lines further as are visible, g and Home the first, G and End the last; never past an end.
/// Escape and q close the view.
pub proof fn law_keys_select_lines(p: Position, key: Key, total: int)
    requires
        is_position(p, total),
        total > 0,
    ensures
        ({
            let after = position_after(p, key, total);
            let up = |n: int|
                after.selected == (if p.selected >= n {
                    p.selected - n
                } else {
                    0
                });
            let down = |n: int|
                after.selected == (if p.selected + n < total {
                    p.selected + n
                } else {
                    total - 1
                });
            &&& key.code == KeyCode::Up || key.code == KeyCode::Char('k') ==> up(1)
            &&& key.code == KeyCode::Down || key.code == KeyCode::Char('j') ==> down(1)
            &&& key.code == KeyCode::PageUp ==> up(p.visible)
            &&& key.code == KeyCode::PageDown ==> down(p.visible)
            &&& key.code == KeyCode::Home || key.code == KeyCode::Char('g') ==> after.selected == 0
            &&& key.code == KeyCode::End || key.code == KeyCode::Char('G') ==> after.selected
                == total - 1
            &&& key.code == KeyCode::Esc || key.code == KeyCode::Char('q') ==> asked_after(key)
                == BlameAction::Close && after == p
            &&& asked_after(key) == BlameAction::Close ==> key.code == KeyCode::Esc || key.code
                == KeyCode::Char('q')
            &&& after.selected != p.selected ==> asked_after(key) == BlameAction::Consumed
            &&& after.visible == p.visible
        }),
{
}

/// The view scrolls no further than it must: where the selected line is in sight it stays, and else
/// the line comes in at the edge towards which the selection went.
pub proof fn law_view_follows_the_selection(p: Position, n: int, total: int)
    requires
        is_position(p, total),
        p.shows_selection(),
        n >= 0,
        total > 0,
    ensures
        p.up(n).selected >= p.scroll ==> p.up(n).scroll == p.scroll,
        p.up(n).selected < p.scroll ==> p.up(n).scroll == p.up(n).selected,
        p.down(n, total).selected < p.scroll + p.visible ==> p.down(n, total).scroll == p.scroll,
        p.down(n, total).selected >= p.scroll + p.visible ==> p.down(n, total).scroll + p.visible - 1
            == p.down(n, total).selected,
        p.at_start().scroll == 0,
        total > p.visible ==> p.at_end(total).scroll == total - p.visible,
{
}

/// The annotation of the first line of a commit: the hash, the author in ten columns and the date in
/// eight, each behind a blank, right-aligned and cut where too long. On a line of the same commit as
/// the one above there is only a bar.
pub proof fn law_annotation_tells_the_commit(line: BlameLine)
    ensures
        ({
            let a = annotation(line, true);
            let n = line.short_hash@.len() as int;
            let author = if line.author@.len() <= 10 {
                line.author@
            } else {
                line.author@.take(10)
            };
            let date = if line.relative_date@.len() <= 8 {
                line.relative_date@
            } else {
                line.relative_date@.take(8)
            };
            &&& a.len() == n + 20
            &&& a.take(n) == line.short_hash@
            &&& a[n] == ' ' && a[n + 11] == ' '
            &&& a.subrange(n + 11 - author.len(), n + 11) == author
            &&& a.subrange(n + 20 - date.len(), n + 20) == date
            &&& forall|i: int| n < i < n + 11 - author.len() ==> #[trigger] a[i] == ' '
            &&& forall|i: int| n + 11 < i < n + 20 - date.len() ==> #[trigger] a[i] == ' '
        }),
        annotation(line, false).len() == 35 && annotation(line, false).last() == '│',
{
    let a = annotation(line, true);
    let n = line.short_hash@.len() as int;
    let author = truncated(line.author@, 10);
    let date = truncated(line.relative_date@, 8);
    assert(a.take(n) =~= line.short_hash@);
    assert(a.subrange(n + 11 - author.len(), n + 11) =~= author);
    assert(a.subrange(n + 20 - date.len(), n + 20) =~= date);
}

/// A line is annotated where its commit is another than that of the line above.
pub proof fn law_groups_are_of_one_commit(ls: Seq<BlameLine>, i: int)
    requires
        0 <= i < ls.len(),
    ensures
        starts_group(ls, 0),
        i > 0 ==> (starts_group(ls, i) <==> ls[i].hash@ != ls[i - 1].hash@),
{
}

proof fn lemma_rows(
    ls: Seq<BlameLine>,
    scroll: int,
    selected: int,
    n: int,
    area: Rect,
    theme: Theme,
    k: int,
)
    requires
        0 <= n,
    ensures
        rows_draws(ls, scroll, selected, n, area, theme).len() == 5 * n,
        0 <= k < n ==> rows_draws(ls, scroll, selected, n, area, theme).subrange(5 * k, 5 * k + 5)
            == row_draws(ls, scroll + k, scroll + k == selected, area, area.y + k, theme),
    decreases n,
{
    if n > 0 {
        lemma_rows(ls, scroll, selected, n - 1, area, theme, k);
        let all = rows_draws(ls, scroll, selected, n, area, theme);
        let before = rows_draws(ls, scroll, selected, n - 1, area, theme);
        if 0 <= k < n - 1 {
            assert(all.subrange(5 * k, 5 * k + 5) =~= before.subrange(5 * k, 5 * k + 5));
        }
        if k == n - 1 {
            assert(all.subrange(5 * k, 5 * k + 5) =~= row_draws(
                ls,
                scroll + k,
                scroll + k == selected,
                area,
                area.y + k,
                theme,
            ));
        }
    }
}

/// Row `k` of the view shows the line `k` lines behind the one it is scrolled to: its annotation,
/// the number it has in the file, right-aligned in four columns, and its content, each in its column.
/// The selected line, and no other, has the style of the selection.
pub proof fn law_rows_show_the_lines(
    ls: Seq<BlameLine>,
    file: Seq<char>,
    p: Position,
    area: Rect,
    theme: Theme,
    k: int,
)
    requires
        area.wf(),
        is_position(p, ls.len() as int),
        area.width >= 2,
        0 <= k < area.height - 2,
        p.scroll + k < ls.len(),
    ensures
        ({
            let all = view_draws(ls, file, p, area, theme);
            let line = ls[p.scroll + k];
            let number = number::decimal(line.line_no as nat);
            let selected = p.scroll + k == p.selected;
            let note = all[5 * k + 1];
            let place = all[5 * k + 3];
            let content = all[5 * k + 5];
            &&& all.len() >= 5 * k + 6
            &&& note is Text && note->Text_x == area.x + 1 && note->Text_y == area.y + 1 + k
                && note->Text_text == fitted(annotation(line, starts_group(ls, p.scroll + k)), 35)
            &&& place is Text && place->Text_x == area.x + 37 && place->Text_y == area.y + 1 + k
                && place->Text_text.last() == ' ' && place->Text_text.drop_last()
                == right_aligned(number, 4)
            &&& content is Text && content->Text_x == area.x + 43 && content->Text_y == area.y + 1
                + k && content->Text_text == line.content@
            &&& selected ==> content->Text_style == Style::plain().under(theme.cursor)
            &&& !selected ==> content->Text_style == Style::plain()
            &&& !selected ==> place->Text_style == theme.line_number
            &&& selected ==> place->Text_style == theme.line_number.under(theme.cursor)
        }),
{
    let inner = area.inside();
    let n = draw::least(inner.height as int, draw::less(ls.len() as int, p.scroll));
    lemma_rows(ls, p.scroll, p.selected, n, inner, theme, k);
    let rows = rows_draws(ls, p.scroll, p.selected, n, inner, theme);
    let row = row_draws(
        ls,
        p.scroll + k,
        p.scroll + k == p.selected,
        inner,
        inner.y + k,
        theme,
    );
    let all = view_draws(ls, file, p, area, theme);
    assert(rows.subrange(5 * k, 5 * k + 5)[0] == rows[5 * k]);
    assert(rows.subrange(5 * k, 5 * k + 5)[2] == rows[5 * k + 2]);
    assert(rows.subrange(5 * k, 5 * k + 5)[4] == rows[5 * k + 4]);
    assert(all[5 * k + 1] == rows[5 * k]);
    assert(all[5 * k + 3] == rows[5 * k + 2]);
    assert(all[5 * k + 5] == rows[5 * k + 4]);
    let number = right_aligned(number::decimal(ls[p.scroll + k].line_no as nat), 4);
    assert((number + seq![' ']).drop_last() =~= number);
}

/// The colour of a commit comes from the first, the third and the fifth character of its hash; a
/// hash that is too short is grey.
pub proof fn law_colours_come_from_the_hash(bytes: Seq<u8>)
    ensures
        bytes.len() >= 6 ==> (commit_color(bytes) matches Color::Rgb(r, g, b) && r == 80 + bytes[0]
            % 100 && g == 80 + bytes[2] % 100 && b == 80 + bytes[4] % 100),
        bytes.len() < 6 ==> commit_color(bytes) == Color::Gray,
{
}

/// The frame of the view names the file and tells how many lines it has.
pub proof fn law_frame_names_the_file(
    ls: Seq<BlameLine>,
    file: Seq<char>,
    p: Position,
    area: Rect,
    theme: Theme,
)
    ensures
        view_draws(ls, file, p, area, theme)[0] == (draw::Draw::Frame {
            area,
            title: Some(" Blame: "@ + file + " ("@ + number::decimal(ls.len()) + " lines) "@),
            style: theme.statusline,
        }),
        is_large_enough(area) <==> area.width >= 20 && area.height >= 3,
{
}

/// The parts of a row have their columns: thirty-five for the annotation, one for a bar, five for
/// the number, one for a bar, and the rest for the content. The first line of a group has the
/// colour of its commit; those after it are grey, and so are the bars.
pub proof fn law_parts_of_a_row_have_their_columns(
    ls: Seq<BlameLine>,
    i: int,
    selected: bool,
    area: Rect,
    y: int,
    theme: Theme,
)
    requires
        area.width >= 42,
    ensures
        ({
            let row = row_draws(ls, i, selected, area, y, theme);
            let grey = Style { fg: Some(Color::Gray), ..Style::plain() };
            let color = if i == 0 || ls[i].hash@ != ls[i - 1].hash@ {
                commit_color(vstd::utf8::encode_utf8(ls[i].hash@))
            } else {
                Color::Gray
            };
            let note = Style { fg: Some(color), ..Style::plain() };
            &&& row.len() == 5
            &&& row[0]->Text_max == 35
            &&& row[0]->Text_style == if selected {
                note.under(theme.cursor)
            } else {
                note
            }
            &&& row[1] == (draw::Draw::Text { x: area.x + 35, y, text: "│"@, max: 1, style: grey })
            &&& row[2]->Text_max == 5
            &&& row[3] == (draw::Draw::Text { x: area.x + 41, y, text: "│"@, max: 1, style: grey })
            &&& row[4]->Text_max == area.width - 42
        }),
{
}

/// The selection is in sight where it is on one of the visible lines, and a view stands at or above
/// its selection, which is on a line of the file.
pub proof fn law_sight_is_the_visible_lines(p: Position, total: int)
    ensures
        p.shows_selection() <==> p.scroll <= p.selected && p.selected - p.scroll < p.visible,
        is_position(p, total) && total > 0 ==> 0 <= p.selected < total && 0 <= p.scroll
            <= p.selected && p.visible >= 1,
        is_position(p, total) && total <= 0 ==> p.selected == 0 && p.scroll == 0,
{
}

} // verus!
