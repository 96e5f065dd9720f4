//! How the picker is laid out, and the rows of its table.

use vstd::prelude::*;

use crate::number;
use crate::number::decimal_text;
use crate::text;
use crate::text::{chars_of, extend, extend_str, string_of};
use crate::ui::draw;
use crate::ui::draw::{Canvas, Rect, Style, Theme};
use crate::ui::markdown;
use crate::ui::markdown::Segment;
use crate::ui::matcher;
use crate::ui::matcher::{
    active_injectors, graphemes, hits, matched_count, matched_range, searched_count,
};
use crate::ui::picker;
use crate::ui::picker::{Column, Picker, MIN_AREA_WIDTH_FOR_PREVIEW};
use crate::ui::wrap;
use crate::ui::wrap::text_width;

verus! {

broadcast use vstd::string::group_string_axioms;

// ---------------------------------------------------------------------------------------------
// Layout
// ---------------------------------------------------------------------------------------------

/// Whether the preview is shown in an area.
pub open spec fn shows_preview(p: Picker, area: Rect) -> bool {
    p.show_preview && (p.file_preview || p.custom_preview) && area.width
        > MIN_AREA_WIDTH_FOR_PREVIEW
}

/// The width of the list: half of the area beside a preview, else all of it.
pub open spec fn list_width(p: Picker, area: Rect) -> int {
    if shows_preview(p, area) {
        area.width as int / 2
    } else {
        area.width as int
    }
}

/// The counts above the list: how many items match, of how many.
pub open spec fn count_text(running: bool, matched: int, searched: int) -> Seq<char> {
    let counts = number::decimal(matched as nat) + "/"@ + number::decimal(searched as nat);
    if running {
        "(running) "@ + counts
    } else {
        counts
    }
}

/// Where the list is drawn and what part of it is visible.
#[derive(Debug, Clone, PartialEq, Eq)]
pub struct Layout {
    /// The counts.
    pub count: String,
    /// Where the prompt goes.
    pub prompt: Rect,
    /// Where the counts go.
    pub count_x: u16,
    pub count_y: u16,
    pub count_width: usize,
    /// Where the table goes.
    pub table: Rect,
    /// The first item of the page that the cursor is on.
    pub offset: u32,
    /// The place behind the last item of the page.
    pub end: u32,
    /// The row of the cursor on the page.
    pub selected: u32,
}

/// The bar with the prompt and the counts, inside the border.
pub open spec fn bar(area: Rect) -> Rect {
    Rect { height: 1, ..area.inside().without_left(1) }
}

/// How many rows of items fit.
pub open spec fn page_rows(p: Picker, area: Rect) -> int {
    draw::less(area.inside().without_top(2).height as int, header_rows(p))
}

/// The rows of the header.
pub open spec fn header_rows(p: Picker) -> int {
    if p.columns@.len() > 1 {
        1
    } else {
        0
    }
}

/// The first item of the page that the cursor is on.
pub open spec fn page_start(cursor: int, rows: int) -> int {
    cursor - cursor % draw::most(1, rows)
}

/// The place behind the last item of the page.
pub open spec fn page_end(cursor: int, rows: int, matched: int) -> int {
    draw::least(picker::capped(page_start(cursor, rows) + rows), matched)
}

/// The cursor is on its page: at or behind its first item, and less than a page behind it.
pub proof fn law_cursor_is_on_its_page(cursor: u32, rows: int)
    requires
        rows >= 0,
    ensures
        0 <= page_start(cursor as int, rows) <= cursor < page_start(cursor as int, rows)
            + draw::most(1, rows),
{
    let n = draw::most(1, rows);
    assert(0 <= (cursor as int) % n < n && (cursor as int) % n <= cursor) by (nonlinear_arith)
        requires
            n >= 1,
            cursor >= 0,
    ;
}

fn counts(running: bool, matched: u32, searched: u32) -> (r: Vec<char>)
    ensures
        r@ == count_text(running, matched as int, searched as int),
{
    let mut t = if running {
        chars_of("(running) ")
    } else {
        Vec::new()
    };
    let ghost head = t@;
    let m = decimal_text(matched as u64);
    extend(&mut t, &m);
    extend_str(&mut t, "/");
    let s = decimal_text(searched as u64);
    extend(&mut t, &s);
    proof {
        let tail = number::decimal(matched as nat) + "/"@ + number::decimal(searched as nat);
        assert(t@ =~= head + tail);
        if !running {
            assert(head + tail =~= tail);
        }
    }
    t
}

proof fn lemma_decimal_len(n: nat)
    requires
        n <= u32::MAX,
    ensures
        1 <= number::decimal(n).len() <= 10,
{
    reveal_with_fuel(number::decimal, 11);
}

/// Whether a search counts as running: it searches, or one of its `injectors` is still in use.
pub fn counts_as_running(searching: bool, injectors: usize) -> (r: bool)
    ensures
        r == (searching || injectors > 0),
{
    searching || injectors > 0
}

impl Picker {
    /// The part of the area for the list, and the part for the preview where that is shown.
    pub fn split(&self, area: Rect) -> (r: (Rect, Option<Rect>))
        requires
            area.wf(),
        ensures
            r.0 == (Rect { width: list_width(*self, area) as u16, ..area }),
            r.1 == (if shows_preview(*self, area) {
                Some(area.without_left(list_width(*self, area)))
            } else {
                None
            }),
            r.0.wf(),
    {
        let preview = self.show_preview && (self.file_preview || self.custom_preview) && area.width
            > MIN_AREA_WIDTH_FOR_PREVIEW;
        if preview {
            let width = area.width / 2;
            (area.with_width(width), Some(area.clip_left(width)))
        } else {
            (area, None)
        }
    }

    /// Where the prompt shows its cursor: in the bar, as wide as the list.
    pub fn cursor_area(&self, area: Rect) -> (r: Rect)
        requires
            area.wf(),
        ensures
            r == (Rect { width: list_width(*self, area) as u16, ..bar(area) }),
    {
        let (list, _) = self.split(area);
        area.bordered_inner().clip_left(1).with_height(1).with_width(list.width)
    }

    /// Whether the search counts as running: it searches, or an injector is still in use.
    pub fn is_running(&self, searching: bool) -> (r: bool)
        ensures
            searching ==> r,
    {
        counts_as_running(searching, active_injectors(&self.matcher))
    }

    /// Lays the list out in an area.
    pub fn layout(&self, area: Rect, running: bool) -> (r: Layout)
        requires
            area.wf(),
        ensures
            r.count@ == count_text(
                running,
                self.items().len() as int,
                matcher::searched_items(self.matcher) as int,
            ),
            r.prompt == (Rect {
                width: draw::less(bar(area).width as int, r.count@.len() as int + 1) as u16,
                ..bar(area)
            }),
            r.count_x == draw::less(
                bar(area).x + bar(area).width,
                r.count@.len() as int + 1,
            ),
            r.count_y == bar(area).y,
            r.count_width == draw::least(r.count@.len() as int, bar(area).width as int),
            r.table == area.inside().without_top(2),
            r.offset == page_start(self.cursor as int, page_rows(*self, area)),
            r.end == page_end(
                self.cursor as int,
                page_rows(*self, area),
                self.items().len() as int,
            ),
            r.selected == self.cursor - r.offset,
    {
        let inner = area.bordered_inner();
        let line = inner.clip_left(1);
        let matched = matched_count(&self.matcher);
        let searched = searched_count(&self.matcher);
        let t = counts(running, matched, searched);
        proof {
            reveal_strlit("(running) ");
            reveal_strlit("/");
            lemma_decimal_len(matched as nat);
            lemma_decimal_len(searched as nat);
            assert(t@.len() <= 40);
        }
        let n: u16 = t.len() as u16;
        let table = inner.clip_top(2);
        let rows: u32 = table.height.saturating_sub(self.header_height()) as u32;
        let page: u32 = if rows >= 1 {
            rows
        } else {
            1
        };
        proof {
            law_cursor_is_on_its_page(self.cursor, rows as int);
        }
        let offset: u32 = self.cursor - self.cursor % page;
        let full: u32 = offset.saturating_add(rows);
        let end: u32 = if full <= matched {
            full
        } else {
            matched
        };
        Layout {
            count: string_of(&t),
            prompt: line.clip_right(n + 1).with_height(1),
            count_x: (line.x + line.width).saturating_sub(n + 1),
            count_y: line.y,
            count_width: if t.len() <= line.width as usize {
                t.len()
            } else {
                line.width as usize
            },
            table,
            offset,
            end,
            selected: self.cursor - offset,
        }
    }

    /// The items of a page, in order; nothing where the page starts behind the last item.
    pub fn page_items(&self, layout: &Layout) -> (r: Option<Vec<u64>>)
        ensures
            r is Some <==> layout.offset <= layout.end <= self.items().len(),
            r matches Some(v) ==> v@ == self.items().subrange(
                layout.offset as int,
                layout.end as int,
            ),
    {
        if layout.offset <= layout.end && layout.end <= matched_count(&self.matcher) {
            Some(matched_range(&self.matcher, layout.offset, layout.end))
        } else {
            None
        }
    }
}

/// The steps that draw the empty list with its border.
pub open spec fn border_draws(area: Rect, theme: Theme) -> Seq<draw::Draw> {
    seq![
        draw::Draw::Clear { area, style: theme.background },
        draw::Draw::Frame { area, title: None, style: Style::plain() },
    ]
}

/// A line of `n` cells below the bar, from column `x` on.
pub open spec fn separator_draws(x: int, y: int, n: int, style: Style) -> Seq<draw::Draw>
    decreases n,
{
    if n <= 0 {
        Seq::empty()
    } else {
        separator_draws(x, y, n - 1, style).push(
            draw::Draw::Glyph { x: x + n - 1, y, symbol: '─', style },
        )
    }
}

/// The steps that draw the counts, which come after the prompt has drawn itself, and the separator.
pub open spec fn bar_draws(area: Rect, layout: Layout, theme: Theme) -> Seq<draw::Draw> {
    let inner = area.inside();
    seq![
        draw::Draw::Text {
            x: layout.count_x as int,
            y: layout.count_y as int,
            text: layout.count@,
            max: layout.count_width as int,
            style: theme.text,
        },
    ] + separator_draws(inner.x as int, inner.y + 1, inner.width as int, theme.separator)
}

/// Draws the empty list with its border.
pub fn draw_border(area: Rect, theme: &Theme) -> (r: Canvas)
    ensures
        r@ == border_draws(area, *theme),
{
    let mut canvas = Canvas::new();
    canvas.clear(area, theme.background);
    canvas.border(area, Style::new());
    proof {
        assert(canvas@ =~= border_draws(area, *theme));
    }
    canvas
}

/// Draws the counts and the separator.
pub fn draw_bar(area: Rect, layout: &Layout, theme: &Theme) -> (r: Canvas)
    requires
        area.wf(),
        area.inside().y < u16::MAX,
    ensures
        r@ == bar_draws(area, *layout, *theme),
{
    let mut canvas = Canvas::new();
    let inner = area.bordered_inner();
    canvas.text(
        layout.count_x,
        layout.count_y,
        layout.count.as_str(),
        layout.count_width,
        theme.text,
    );
    let ghost start = canvas@;
    let mut k: u16 = 0;
    proof {
        assert(start + separator_draws(inner.x as int, inner.y + 1, 0, theme.separator) =~= start);
    }
    while k < inner.width
        invariant
            k <= inner.width,
            inner.wf(),
            inner.y < u16::MAX,
            canvas@ == start + separator_draws(
                inner.x as int,
                inner.y + 1,
                k as int,
                theme.separator,
            ),
        decreases inner.width - k,
    {
        canvas.glyph(inner.x + k, inner.y + 1, '─', theme.separator);
        proof {
            let before = separator_draws(inner.x as int, inner.y + 1, k as int, theme.separator);
            let cell = draw::Draw::Glyph {
                x: inner.x + k,
                y: inner.y + 1,
                symbol: '─',
                style: theme.separator,
            };
            assert((start + before).push(cell) =~= start + before.push(cell));
        }
        k = k + 1;
    }
    proof {
        assert(canvas@ =~= bar_draws(area, *layout, *theme));
    }
    canvas
}

// ---------------------------------------------------------------------------------------------
// Marking what the query hits
// ---------------------------------------------------------------------------------------------

/// A text cut into graphemes, the first of which has the index `from` in its cell. Those that are
/// hit have the highlight put over their style.
pub open spec fn marked_graphemes(
    pieces: Seq<Seq<char>>,
    from: int,
    style: Style,
    hit: Set<int>,
    highlight: Style,
) -> Seq<(Seq<char>, Style)> {
    Seq::new(
        pieces.len(),
        |i: int|
            (
                pieces[i],
                if hit.contains(from + i) {
                    style.under(highlight)
                } else {
                    style
                },
            ),
    )
}

/// All graphemes of the spans of a cell, marked.
pub open spec fn marked_cell(
    spans: Seq<(Seq<char>, Style)>,
    hit: Set<int>,
    highlight: Style,
) -> Seq<(Seq<char>, Style)>
    decreases spans.len(),
{
    if spans.len() == 0 {
        Seq::empty()
    } else {
        let before = marked_cell(spans.drop_last(), hit, highlight);
        let (t, style) = spans.last();
        before + marked_graphemes(
            matcher::grapheme_pieces(t),
            before.len() as int,
            style,
            hit,
            highlight,
        )
    }
}

/// Pieces put together as long as the style stays the same, after the text `current` in `style`.
pub open spec fn runs(
    pieces: Seq<(Seq<char>, Style)>,
    current: Seq<char>,
    style: Style,
) -> Seq<(Seq<char>, Style)>
    decreases pieces.len(),
{
    if pieces.len() == 0 {
        seq![(current, style)]
    } else if pieces[0].1 == style {
        runs(pieces.skip(1), current + pieces[0].0, style)
    } else {
        let done = if current.len() == 0 {
            Seq::empty()
        } else {
            seq![(current, style)]
        };
        done + runs(pieces.skip(1), pieces[0].0, pieces[0].1)
    }
}

/// A cell with what the query hits highlighted.
pub open spec fn highlighted(
    spans: Seq<(Seq<char>, Style)>,
    hit: Set<int>,
    highlight: Style,
) -> Seq<(Seq<char>, Style)> {
    runs(marked_cell(spans, hit, highlight), Seq::empty(), Style::plain())
}

/// The numbers in a list.
pub open spec fn numbers(v: Seq<u32>) -> Set<int> {
    Set::new(|i: int| exists|k: int| 0 <= k < v.len() && #[trigger] v[k] == i)
}

/// The texts of spans, one after another.
pub open spec fn spans_text(spans: Seq<(Seq<char>, Style)>) -> Seq<char>
    decreases spans.len(),
{
    if spans.len() == 0 {
        Seq::empty()
    } else {
        spans[0].0 + spans_text(spans.skip(1))
    }
}

/// Putting pieces together loses none of their text.
pub proof fn law_runs_keep_the_text(
    pieces: Seq<(Seq<char>, Style)>,
    current: Seq<char>,
    style: Style,
)
    ensures
        spans_text(runs(pieces, current, style)) == current + spans_text(pieces),
    decreases pieces.len(),
{
    if pieces.len() == 0 {
        let one = seq![(current, style)];
        assert(one.skip(1) =~= Seq::<(Seq<char>, Style)>::empty());
        assert(spans_text(one.skip(1)) =~= Seq::<char>::empty());
        assert(one[0].0 + Seq::<char>::empty() =~= current);
        assert(current + spans_text(pieces) =~= current);
    } else {
        let (t, s) = pieces[0];
        let rest = pieces.skip(1);
        if s == style {
            law_runs_keep_the_text(rest, current + t, style);
            assert((current + t) + spans_text(rest) =~= current + (t + spans_text(rest)));
        } else {
            law_runs_keep_the_text(rest, t, s);
            let tail = runs(rest, t, s);
            if current.len() == 0 {
                assert(runs(pieces, current, style) =~= tail);
                assert(current + spans_text(pieces) =~= spans_text(pieces));
            } else {
                let all = runs(pieces, current, style);
                assert(all =~= seq![(current, style)] + tail);
                assert(all.skip(1) =~= tail);
                assert(all[0] == (current, style));
            }
        }
    }
}

fn contains_number(v: &Vec<u32>, n: u128) -> (r: bool)
    ensures
        r == numbers(v@).contains(n as int),
{
    let mut i: usize = 0;
    while i < v.len()
        invariant
            i <= v@.len(),
            forall|k: int| 0 <= k < i ==> #[trigger] v@[k] != n,
        decreases v@.len() - i,
    {
        if v[i] as u128 == n {
            proof {
                assert(v@[i as int] == n);
            }
            return true;
        }
        i = i + 1;
    }
    false
}

fn push_span(v: &mut Vec<Segment>, t: &Vec<char>, style: Style)
    ensures
        markdown::segments(final(v)@) == markdown::segments(old(v)@).push((t@, style)),
{
    let ghost before = v@;
    let s: Segment = (string_of(t), style);
    v.push(s);
    proof {
        assert(markdown::segments(v@) =~= markdown::segments(before).push((t@, style)));
    }
}

/// The graphemes of a cell with their styles.
fn mark_cell(spans: &Vec<Segment>, hit: &Vec<u32>, highlight: Style) -> (r: Vec<Segment>)
    ensures
        markdown::segments(r@) == marked_cell(
            markdown::segments(spans@),
            numbers(hit@),
            highlight,
        ),
{
    let ghost all = markdown::segments(spans@);
    let mut out: Vec<Segment> = Vec::new();
    let mut i: usize = 0;
    proof {
        assert(all.take(0) =~= Seq::<(Seq<char>, Style)>::empty());
        assert(markdown::segments(out@) =~= Seq::<(Seq<char>, Style)>::empty());
    }
    while i < spans.len()
        invariant
            i <= spans@.len(),
            all == markdown::segments(spans@),
            markdown::segments(out@) == marked_cell(all.take(i as int), numbers(hit@), highlight),
        decreases spans@.len() - i,
    {
        let span = &spans[i];
        let pieces = graphemes(span.0.as_str());
        let ghost cut = text::strings(pieces@);
        let ghost start = markdown::segments(out@);
        let from: usize = out.len();
        let ghost marked = marked_graphemes(
            cut,
            from as int,
            span.1,
            numbers(hit@),
            highlight,
        );
        let mut j: usize = 0;
        proof {
            assert(start.len() == out@.len());
            assert(all[i as int] == markdown::segment(spans@[i as int]));
            assert(all.take(i + 1).drop_last() =~= all.take(i as int));
            assert(all.take(i + 1).last() == (span.0@, span.1));
            assert(start + marked.take(0) =~= start);
        }
        while j < pieces.len()
            invariant
                j <= pieces@.len(),
                cut == text::strings(pieces@),
                marked == marked_graphemes(cut, from as int, span.1, numbers(hit@), highlight),
                start.len() == from,
                markdown::segments(out@) == start + marked.take(j as int),
            decreases pieces@.len() - j,
        {
            let place: u128 = from as u128 + j as u128;
            let style = if contains_number(hit, place) {
                span.1.patch(highlight)
            } else {
                span.1
            };
            let piece = chars_of(pieces[j].as_str());
            push_span(&mut out, &piece, style);
            proof {
                assert(cut[j as int] == pieces@[j as int]@);
                assert(marked[j as int] == (piece@, style));
                assert(marked.take(j + 1) =~= marked.take(j as int).push(marked[j as int]));
                assert(start + marked.take(j + 1) =~= (start + marked.take(j as int)).push(
                    marked[j as int],
                ));
            }
            j = j + 1;
        }
        proof {
            assert(marked.take(j as int) =~= marked);
        }
        i = i + 1;
    }
    proof {
        assert(all.take(i as int) =~= all);
    }
    out
}

/// A cell with what the query hits highlighted: the graphemes whose indices are in `hit`.
pub fn highlight_cell(spans: &Vec<Segment>, hit: &Vec<u32>, highlight: Style) -> (r: Vec<Segment>)
    ensures
        markdown::segments(r@) == highlighted(
            markdown::segments(spans@),
            numbers(hit@),
            highlight,
        ),
{
    let marked = mark_cell(spans, hit, highlight);
    let ghost all = markdown::segments(marked@);
    let mut out: Vec<Segment> = Vec::new();
    let mut current: Vec<char> = Vec::new();
    let mut style = Style::new();
    let mut i: usize = 0;
    let ghost want = runs(all, Seq::empty(), Style::plain());
    proof {
        assert(all.skip(0) =~= all);
        assert(current@ =~= Seq::<char>::empty());
        assert(markdown::segments(out@) =~= Seq::<(Seq<char>, Style)>::empty());
        assert(markdown::segments(out@) + want =~= want);
    }
    while i < marked.len()
        invariant
            i <= marked@.len(),
            all == markdown::segments(marked@),
            markdown::segments(out@) + runs(all.skip(i as int), current@, style) == want,
        decreases marked@.len() - i,
    {
        let piece = &marked[i];
        let ghost done = markdown::segments(out@);
        proof {
            assert(all[i as int] == markdown::segment(marked@[i as int]));
            assert(all.skip(i as int)[0] == (piece.0@, piece.1));
            assert(all.skip(i as int).skip(1) =~= all.skip(i + 1));
        }
        if piece.1 != style {
            let ghost was = (current@, style);
            if current.len() > 0 {
                push_span(&mut out, &current, style);
            }
            proof {
                let closed = if was.0.len() == 0 {
                    Seq::<(Seq<char>, Style)>::empty()
                } else {
                    seq![was]
                };
                let rest = runs(all.skip(i + 1), piece.0@, piece.1);
                assert(markdown::segments(out@) =~= done + closed);
                assert((done + closed) + rest =~= done + (closed + rest));
            }
            current = chars_of(piece.0.as_str());
            style = piece.1;
        } else {
            extend_str(&mut current, piece.0.as_str());
        }
        i = i + 1;
    }
    proof {
        assert(all.skip(i as int) =~= Seq::<(Seq<char>, Style)>::empty());
    }
    let ghost done = markdown::segments(out@);
    push_span(&mut out, &current, style);
    proof {
        assert(done.push((current@, style)) =~= done + seq![(current@, style)]);
    }
    out
}

// ---------------------------------------------------------------------------------------------
// Rows
// ---------------------------------------------------------------------------------------------

/// The display width of a cell.
pub open spec fn cell_width(spans: Seq<(Seq<char>, Style)>) -> nat
    decreases spans.len(),
{
    if spans.len() == 0 {
        0
    } else {
        cell_width(spans.drop_last()) + wrap::display_width(spans.last().0)
    }
}

/// The part of the width that a coordinate tells.
pub open spec fn told_width(spans: Seq<(Seq<char>, Style)>) -> int {
    (cell_width(spans) % 65536) as int
}

fn width_of_cell(spans: &Vec<Segment>) -> (r: u16)
    ensures
        r == told_width(markdown::segments(spans@)),
{
    let ghost all = markdown::segments(spans@);
    let mut w: u32 = 0;
    let mut i: usize = 0;
    proof {
        assert(all.take(0) =~= Seq::<(Seq<char>, Style)>::empty());
    }
    while i < spans.len()
        invariant
            i <= spans@.len(),
            all == markdown::segments(spans@),
            w == told_width(all.take(i as int)),
        decreases spans@.len() - i,
    {
        let n: u32 = (text_width(spans[i].0.as_str()) % 65536) as u32;
        proof {
            assert(all[i as int] == markdown::segment(spans@[i as int]));
            assert(all.take(i + 1).drop_last() =~= all.take(i as int));
            assert(all.take(i + 1).last() == all[i as int]);
            let a = cell_width(all.take(i as int)) as int;
            let b = wrap::display_width(spans@[i as int].0@) as int;
            assert((a % 65536 + b % 65536) % 65536 == (a + b) % 65536);
        }
        w = (w + n) % 65536;
        i = i + 1;
    }
    proof {
        assert(all.take(i as int) =~= all);
    }
    w as u16
}

/// How many of the columns are shown.
pub open spec fn shown_count(columns: Seq<Column>) -> nat
    decreases columns.len(),
{
    if columns.len() == 0 {
        0
    } else {
        shown_count(columns.drop_last()) + if columns.last().hidden {
            0nat
        } else {
            1
        }
    }
}

/// A row of cells as it is shown: nothing for hidden columns, and what the query hits highlighted
/// in those that are searched, by one list of hits for each of them.
pub open spec fn row_cells(
    columns: Seq<Column>,
    cells: Seq<Seq<(Seq<char>, Style)>>,
    hit: Seq<Set<int>>,
    highlight: Style,
) -> Seq<Option<Seq<(Seq<char>, Style)>>> {
    Seq::new(
        columns.len(),
        |i: int|
            if columns[i].hidden {
                None
            } else if columns[i].filter {
                Some(
                    highlighted(
                        cells[i],
                        hit[picker::filter_count(columns.take(i)) as int],
                        highlight,
                    ),
                )
            } else {
                Some(cells[i])
            },
    )
}

/// The widths of the columns that are shown, after a row is taken into account.
pub open spec fn grown_widths(
    columns: Seq<Column>,
    cells: Seq<Seq<(Seq<char>, Style)>>,
    widths: Seq<u16>,
) -> Seq<u16>
    decreases columns.len(),
{
    if columns.len() == 0 {
        widths
    } else {
        let n = columns.len() - 1;
        let before = grown_widths(columns.drop_last(), cells.take(n), widths);
        if columns.last().hidden {
            before
        } else {
            let k = shown_count(columns.drop_last()) as int;
            before.update(k, draw::most(before[k] as int, told_width(cells[n])) as u16)
        }
    }
}

/// The cells behind a vector.
pub open spec fn cells_of(v: Seq<Vec<Segment>>) -> Seq<Seq<(Seq<char>, Style)>> {
    v.map_values(|c: Vec<Segment>| markdown::segments(c@))
}

/// The cells behind a vector of optional cells.
pub open spec fn opt_cells_of(v: Seq<Option<Vec<Segment>>>) -> Seq<
    Option<Seq<(Seq<char>, Style)>>,
> {
    v.map_values(
        |c: Option<Vec<Segment>>|
            match c {
                Some(s) => Some(markdown::segments(s@)),
                None => None,
            },
    )
}

/// The hits behind a vector.
pub open spec fn hits_of(v: Seq<Vec<u32>>) -> Seq<Set<int>> {
    v.map_values(|h: Vec<u32>| numbers(h@))
}

fn copy_spans(v: &Vec<Segment>) -> (r: Vec<Segment>)
    ensures
        markdown::segments(r@) == markdown::segments(v@),
{
    let ghost all = markdown::segments(v@);
    let mut out: Vec<Segment> = Vec::new();
    let mut i: usize = 0;
    proof {
        assert(markdown::segments(out@) =~= all.take(0));
    }
    while i < v.len()
        invariant
            i <= v@.len(),
            all == markdown::segments(v@),
            markdown::segments(out@) == all.take(i as int),
        decreases v@.len() - i,
    {
        let t = chars_of(v[i].0.as_str());
        push_span(&mut out, &t, v[i].1);
        proof {
            assert(all[i as int] == markdown::segment(v@[i as int]));
            assert(all.take(i + 1) =~= all.take(i as int).push(all[i as int]));
        }
        i = i + 1;
    }
    proof {
        assert(all.take(i as int) =~= all);
    }
    out
}

proof fn lemma_counts(columns: Seq<Column>, i: int)
    requires
        0 <= i < columns.len(),
    ensures
        columns[i].filter ==> picker::filter_count(columns.take(i)) < picker::filter_count(columns),
        picker::filter_count(columns.take(i)) <= picker::filter_count(columns),
        shown_count(columns.take(i)) <= i,
    decreases columns.len(),
{
    let n = columns.len() - 1;
    if i == n {
        assert(columns.take(i) =~= columns.drop_last());
        lemma_shown_bound(columns.drop_last());
    } else {
        lemma_counts(columns.drop_last(), i);
        assert(columns.drop_last().take(i) =~= columns.take(i));
    }
}

proof fn lemma_shown_bound(columns: Seq<Column>)
    ensures
        shown_count(columns) <= columns.len(),
    decreases columns.len(),
{
    if columns.len() > 0 {
        lemma_shown_bound(columns.drop_last());
    }
}

/// The cells of a row as they are shown, and the widths of the columns grown to hold them. `hit`
/// has one list of hits for each searched column.
pub fn format_row(
    columns: &Vec<Column>,
    cells: &Vec<Vec<Segment>>,
    hit: &Vec<Vec<u32>>,
    highlight: Style,
    widths: &mut Vec<u16>,
) -> (r: Vec<Option<Vec<Segment>>>)
    requires
        cells@.len() == columns@.len(),
        old(widths)@.len() == columns@.len(),
        hit@.len() == picker::filter_count(columns@),
    ensures
        opt_cells_of(r@) == row_cells(columns@, cells_of(cells@), hits_of(hit@), highlight),
        final(widths)@ == grown_widths(columns@, cells_of(cells@), old(widths)@),
        final(widths)@.len() == old(widths)@.len(),
{
    let ghost cols = columns@;
    let ghost texts = cells_of(cells@);
    let ghost marks = hits_of(hit@);
    let ghost want = row_cells(cols, texts, marks, highlight);
    let ghost start = widths@;
    let mut out: Vec<Option<Vec<Segment>>> = Vec::new();
    let mut searched: usize = 0;
    let mut shown: usize = 0;
    let mut i: usize = 0;
    proof {
        assert(cols.take(0) =~= Seq::<Column>::empty());
        assert(opt_cells_of(out@) =~= want.take(0));
    }
    while i < columns.len()
        invariant
            i <= columns.len(),
            cols == columns@,
            texts == cells_of(cells@),
            marks == hits_of(hit@),
            want == row_cells(cols, texts, marks, highlight),
            cells@.len() == cols.len(),
            hit@.len() == picker::filter_count(cols),
            start.len() == cols.len(),
            searched <= i,
            shown <= i,
            searched == picker::filter_count(cols.take(i as int)),
            shown == shown_count(cols.take(i as int)),
            widths@.len() == start.len(),
            widths@ == grown_widths(cols.take(i as int), texts.take(i as int), start),
            opt_cells_of(out@) == want.take(i as int),
        decreases columns@.len() - i,
    {
        let column = &columns[i];
        let ghost before = out@;
        proof {
            assert(cols.take(i + 1).drop_last() =~= cols.take(i as int));
            assert(cols.take(i + 1).last() == cols[i as int]);
            assert(texts.take(i + 1).take(i as int) =~= texts.take(i as int));
            assert(texts[i as int] == markdown::segments(cells@[i as int]@));
            lemma_counts(cols, i as int);
        }
        if column.hidden {
            out.push(None);
            if column.filter {
                searched = searched + 1;
            }
        } else {
            let cell = &cells[i];
            let w = width_of_cell(cell);
            let shown_cell = if column.filter {
                proof {
                    assert(marks[searched as int] == numbers(hit@[searched as int]@));
                }
                let c = highlight_cell(cell, &hit[searched], highlight);
                searched = searched + 1;
                c
            } else {
                copy_spans(cell)
            };
            out.push(Some(shown_cell));
            let was: u16 = widths[shown];
            if w > was {
                widths.set(shown, w);
            } else {
                proof {
                    assert(widths@.update(shown as int, was) =~= widths@);
                }
            }
            shown = shown + 1;
        }
        proof {
            assert(opt_cells_of(out@) =~= opt_cells_of(before).push(want[i as int]));
            assert(want.take(i + 1) =~= want.take(i as int).push(want[i as int]));
        }
        i = i + 1;
    }
    proof {
        assert(cols.take(i as int) =~= cols);
        assert(texts.take(i as int) =~= texts);
        assert(want.take(i as int) =~= want);
    }
    out
}

/// What the query hits in the searched columns of the item at a place of the list.
pub open spec fn query_hits(p: Picker, place: u32) -> Seq<Set<int>> {
    Seq::new(
        picker::filter_count(p.columns@),
        |k: int|
            numbers(
                matcher::hit_places(
                    p.matcher,
                    place,
                    k as usize,
                    p.file_preview || p.custom_preview,
                ),
            ),
    )
}

impl Picker {
    /// What the query hits in the searched columns of the item at a place of the list.
    fn row_hits(&self, place: u32) -> (r: Vec<Vec<u32>>)
        requires
            self.wf(),
            place < self.items().len(),
        ensures
            r@.len() == picker::filter_count(self.columns@),
            hits_of(r@) == query_hits(*self, place),
    {
        proof {
            let patterns = picker::patterns_of(self.query@);
            assert(patterns.len() == self.query@.len());
            picker::lemma_filter_texts(self.columns@, patterns);
        }
        let n = picker::count_filters(&self.columns);
        let paths = self.file_preview || self.custom_preview;
        let mut out: Vec<Vec<u32>> = Vec::new();
        let mut k: usize = 0;
        while k < n
            invariant
                k <= n,
                out@.len() == k,
                n == matcher::column_patterns(self.matcher).len(),
                place < self.items().len(),
                paths == (self.file_preview || self.custom_preview),
                forall|i: int|
                    0 <= i < k ==> (#[trigger] out@[i])@ == matcher::hit_places(
                        self.matcher,
                        place,
                        i as usize,
                        paths,
                    ),
            decreases n - k,
        {
            out.push(hits(&self.matcher, place, k, paths));
            k = k + 1;
        }
        proof {
            assert(hits_of(out@) =~= query_hits(*self, place));
        }
        out
    }

    /// The cells of the item at a place of the list as they are shown, and the widths of the
    /// columns grown to hold them. What the query hits is highlighted.
    pub fn present_row(&mut self, place: u32, cells: &Vec<Vec<Segment>>, theme: &Theme) -> (r: Vec<
        Option<Vec<Segment>>,
    >)
        requires
            old(self).wf(),
            place < old(self).items().len(),
            cells@.len() == old(self).columns@.len(),
        ensures
            final(self).wf(),
            *final(self) == (Picker { widths: final(self).widths, ..*old(self) }),
            final(self).widths@ == grown_widths(
                old(self).columns@,
                cells_of(cells@),
                old(self).widths@,
            ),
            opt_cells_of(r@) == row_cells(
                old(self).columns@,
                cells_of(cells@),
                query_hits(*old(self), place),
                theme.special.in_bold(),
            ),
    {
        let hit = self.row_hits(place);
        let mut widths: Vec<u16> = Vec::new();
        let mut i: usize = 0;
        while i < self.widths.len()
            invariant
                i <= self.widths@.len(),
                widths@ == self.widths@.take(i as int),
            decreases self.widths@.len() - i,
        {
            widths.push(self.widths[i]);
            proof {
                assert(self.widths@.take(i + 1) =~= self.widths@.take(i as int).push(
                    self.widths@[i as int],
                ));
            }
            i = i + 1;
        }
        proof {
            assert(self.widths@.take(i as int) =~= self.widths@);
        }
        let r = format_row(&self.columns, cells, &hit, theme.special.bold(), &mut widths);
        self.widths = widths;
        r
    }

    /// The cells of the header, where there is one: the names of the columns that are shown.
    /// `active` is the column that the prompt's cursor is in.
    pub fn header_cells(&self, active: Option<usize>, theme: &Theme) -> (r: Option<
        Vec<Option<Segment>>,
    >)
        ensures
            r is Some <==> self.columns@.len() > 1,
            r matches Some(v) ==> v@.len() == self.columns@.len() && forall|i: int|
                0 <= i < v@.len() ==> match #[trigger] v@[i] {
                    None => self.columns@[i].hidden,
                    Some(s) => !self.columns@[i].hidden && s.0@ == self.columns@[i].name@ && s.1
                        == (if active == Some(i as usize) {
                        theme.active_column
                    } else {
                        theme.header_column
                    }),
                },
    {
        if self.columns.len() <= 1 {
            return None;
        }
        let mut out: Vec<Option<Segment>> = Vec::new();
        let mut i: usize = 0;
        while i < self.columns.len()
            invariant
                i <= self.columns@.len(),
                out@.len() == i,
                forall|k: int|
                    0 <= k < i ==> match #[trigger] out@[k] {
                        None => self.columns@[k].hidden,
                        Some(s) => !self.columns@[k].hidden && s.0@ == self.columns@[k].name@
                            && s.1 == (if active == Some(k as usize) {
                            theme.active_column
                        } else {
                            theme.header_column
                        }),
                    },
            decreases self.columns@.len() - i,
        {
            let column = &self.columns[i];
            if column.hidden {
                out.push(None);
            } else {
                let is_active = match active {
                    Some(k) => k == i,
                    None => false,
                };
                let style = if is_active {
                    theme.active_column
                } else {
                    theme.header_column
                };
                out.push(Some((column.name.clone(), style)));
            }
            i = i + 1;
        }
        Some(out)
    }
}

/// The preview stands beside the list where it is wanted, there is one to show, and the area is more
/// than 72 columns wide; the list has half of the width then, and else all of it.
pub proof fn law_preview_needs_room(p: Picker, area: Rect)
    ensures
        shows_preview(p, area) <==> p.show_preview && (p.file_preview || p.custom_preview)
            && area.width > 72,
        shows_preview(p, area) ==> list_width(p, area) == area.width / 2,
        !shows_preview(p, area) ==> list_width(p, area) == area.width,
{
}

/// The counts tell how many items match, of how many, and whether the search goes on.
pub proof fn law_counts_tell_the_matches(matched: nat, searched: nat)
    ensures
        count_text(false, matched as int, searched as int) == number::decimal(matched) + "/"@
            + number::decimal(searched),
        count_text(true, matched as int, searched as int) == "(running) "@ + (number::decimal(
            matched,
        ) + "/"@ + number::decimal(searched)),
{
}

/// Where the parts of the list are: inside the border a bar, a row of it free, and below the bar and
/// a rule the table, of which one row is the header where there is more than one column.
pub proof fn law_parts_of_the_list(p: Picker, area: Rect)
    requires
        area.wf(),
        area.width >= 3,
        area.height >= 5,
    ensures
        bar(area) == (Rect {
            x: (area.x + 2) as u16,
            y: (area.y + 1) as u16,
            width: (area.width - 3) as u16,
            height: 1,
        }),
        p.columns@.len() <= 1 ==> page_rows(p, area) == area.height - 4,
        p.columns@.len() > 1 ==> page_rows(p, area) == area.height - 5,
{
}

/// The list is cut into pages of as many items as there are rows: the page of the cursor starts at a
/// multiple of that, and ends where the next one starts or the list ends. A cursor on the same page
/// shows the same items.
pub proof fn law_pages_are_cut_evenly(cursor: int, other: int, rows: int, matched: int)
    requires
        0 <= cursor,
        rows >= 1,
        cursor + rows <= u32::MAX,
    ensures
        page_start(cursor, rows) % rows == 0,
        page_start(cursor, rows) <= cursor < page_start(cursor, rows) + rows,
        page_start(cursor, rows) <= other < page_start(cursor, rows) + rows ==> page_start(
            other,
            rows,
        ) == page_start(cursor, rows),
        page_start(cursor, rows) + rows <= matched ==> page_end(cursor, rows, matched)
            == page_start(cursor, rows) + rows,
        page_start(cursor, rows) + rows > matched ==> page_end(cursor, rows, matched) == matched,
{
    let start = page_start(cursor, rows);
    vstd::arithmetic::div_mod::lemma_fundamental_div_mod(cursor, rows);
    vstd::arithmetic::div_mod::lemma_mod_bound(cursor, rows);
    let q = cursor / rows;
    assert(start == rows * q);
    vstd::arithmetic::div_mod::lemma_mod_multiples_basic(q, rows);
    assert(rows * q == q * rows) by (nonlinear_arith);
    if start <= other < start + rows {
        let d = other - start;
        vstd::arithmetic::div_mod::lemma_fundamental_div_mod_converse(other, rows, q, d);
    }
}

/// The characters of spans, each with its style.
pub open spec fn styled(spans: Seq<(Seq<char>, Style)>) -> Seq<(char, Style)>
    decreases spans.len(),
{
    if spans.len() == 0 {
        Seq::empty()
    } else {
        spans[0].0.map_values(|c: char| (c, spans[0].1)) + styled(spans.skip(1))
    }
}

proof fn lemma_styled_first(span: (Seq<char>, Style), rest: Seq<(Seq<char>, Style)>)
    ensures
        styled(seq![span] + rest) == span.0.map_values(|c: char| (c, span.1)) + styled(rest),
        styled(seq![span]) == span.0.map_values(|c: char| (c, span.1)),
{
    let none = Seq::<(Seq<char>, Style)>::empty();
    assert((seq![span] + rest).skip(1) =~= rest);
    assert(seq![span].skip(1) =~= none);
    assert(styled(none) =~= Seq::<(char, Style)>::empty());
    assert(styled(seq![span]) =~= span.0.map_values(|c: char| (c, span.1)));
}

/// Putting pieces of one style together changes neither a character nor its style.
pub proof fn law_runs_keep_the_styles(
    pieces: Seq<(Seq<char>, Style)>,
    current: Seq<char>,
    style: Style,
)
    ensures
        styled(runs(pieces, current, style)) == current.map_values(|c: char| (c, style)) + styled(
            pieces,
        ),
    decreases pieces.len(),
{
    let open = current.map_values(|c: char| (c, style));
    if pieces.len() == 0 {
        lemma_styled_first((current, style), pieces);
        assert(open + styled(pieces) =~= open);
    } else {
        let (t, s) = pieces[0];
        let rest = pieces.skip(1);
        let here = t.map_values(|c: char| (c, s));
        assert(styled(pieces) == here + styled(rest));
        if s == style {
            law_runs_keep_the_styles(rest, current + t, style);
            assert((current + t).map_values(|c: char| (c, style)) =~= open + here);
            assert((open + here) + styled(rest) =~= open + (here + styled(rest)));
        } else {
            law_runs_keep_the_styles(rest, t, s);
            let tail = runs(rest, t, s);
            if current.len() == 0 {
                let none = Seq::<(Seq<char>, Style)>::empty();
                assert(none + tail =~= tail);
                assert(open + styled(pieces) =~= styled(pieces));
            } else {
                lemma_styled_first((current, style), tail);
                assert(open + (here + styled(rest)) =~= open + styled(pieces));
            }
        }
    }
}

/// Of a cell in one style, the graphemes that the query hits have the highlight over that style, and
/// no others do. Each is counted from the first of the cell on.
pub proof fn law_hits_are_highlighted(
    spans: Seq<(Seq<char>, Style)>,
    t: Seq<char>,
    style: Style,
    hit: Set<int>,
    highlight: Style,
    i: int,
)
    requires
        0 <= i < matcher::grapheme_pieces(t).len(),
    ensures
        ({
            let before = marked_cell(spans, hit, highlight);
            let all = marked_cell(spans.push((t, style)), hit, highlight);
            let pieces = matcher::grapheme_pieces(t);
            &&& all.len() == before.len() + pieces.len()
            &&& all.take(before.len() as int) == before
            &&& all[before.len() + i].0 == pieces[i]
            &&& hit.contains(before.len() + i) ==> all[before.len() + i].1 == style.under(highlight)
            &&& !hit.contains(before.len() + i) ==> all[before.len() + i].1 == style
        }),
        marked_cell(Seq::empty(), hit, highlight).len() == 0,
        styled(highlighted(spans, hit, highlight)) == styled(marked_cell(spans, hit, highlight)),
{
    let before = marked_cell(spans, hit, highlight);
    let all = marked_cell(spans.push((t, style)), hit, highlight);
    assert(spans.push((t, style)).drop_last() =~= spans);
    assert(all.take(before.len() as int) =~= before);
    let none = Seq::<char>::empty();
    law_runs_keep_the_styles(before, none, Style::plain());
    assert(none.map_values(|c: char| (c, Style::plain())) + styled(before) =~= styled(before));
}

/// A number is hit where it is in the list of hits.
pub proof fn law_numbers_are_those_in_the_list(v: Seq<u32>, n: u32)
    ensures
        numbers(v).contains(n as int) <==> v.contains(n),
{
    if v.contains(n) {
        let k = choose|k: int| 0 <= k < v.len() && v[k] == n;
        assert(v[k] == n as int);
    }
}

/// What is shown of a row: nothing of hidden columns, the cells of the others, and in those that are
/// searched what the query hits in them.
pub proof fn law_rows_show_their_cells(
    columns: Seq<Column>,
    cells: Seq<Seq<(Seq<char>, Style)>>,
    hit: Seq<Set<int>>,
    highlight: Style,
    i: int,
)
    requires
        0 <= i < columns.len(),
    ensures
        ({
            let row = row_cells(columns, cells, hit, highlight);
            let searched = columns.take(i).filter(|c: Column| c.filter).len() as int;
            &&& row.len() == columns.len()
            &&& columns[i].hidden ==> row[i] is None
            &&& !columns[i].hidden && !columns[i].filter ==> row[i] == Some(cells[i])
            &&& !columns[i].hidden && columns[i].filter ==> row[i] == Some(
                highlighted(cells[i], hit[searched], highlight),
            )
        }),
{
    let c = columns[i];
    let some = Seq::new(i as nat, |k: int| Seq::<char>::empty());
    picker::law_searched_columns_keep_their_order(columns.take(i), some, c, Seq::empty());
}

/// A column that is shown is made as wide as its cell needs, and no column gets narrower.
pub proof fn law_columns_grow_to_their_cells(
    columns: Seq<Column>,
    cells: Seq<Seq<(Seq<char>, Style)>>,
    widths: Seq<u16>,
    c: Column,
    cell: Seq<(Seq<char>, Style)>,
)
    requires
        columns.len() == cells.len(),
    ensures
        ({
            let before = grown_widths(columns, cells, widths);
            let after = grown_widths(columns.push(c), cells.push(cell), widths);
            let k = columns.filter(|d: Column| !d.hidden).len() as int;
            &&& c.hidden ==> after == before
            &&& !c.hidden && before[k] < told_width(cell) ==> after == before.update(
                k,
                told_width(cell) as u16,
            )
            &&& !c.hidden && before[k] >= told_width(cell) ==> after == before.update(k, before[k])
        }),
        grown_widths(Seq::empty(), Seq::empty(), widths) == widths,
{
    assert(columns.push(c).drop_last() =~= columns);
    assert(cells.push(cell).take(columns.len() as int) =~= cells);
    lemma_shown_count(columns);
}

proof fn lemma_shown_count(columns: Seq<Column>)
    ensures
        shown_count(columns) == columns.filter(|d: Column| !d.hidden).len(),
    decreases columns.len(),
{
    reveal(Seq::filter);
    if columns.len() > 0 {
        lemma_shown_count(columns.drop_last());
    }
}

/// A cell is as wide as its spans together.
pub proof fn law_cells_are_as_wide_as_their_spans(spans: Seq<(Seq<char>, Style)>, span: (Seq<char>, Style))
    ensures
        cell_width(spans.push(span)) == cell_width(spans) + wrap::display_width(span.0),
        cell_width(Seq::empty()) == 0,
        told_width(spans) == cell_width(spans) % 65536,
{
    assert(spans.push(span).drop_last() =~= spans);
}

/// The hits in the searched columns of an item are those that the matcher finds at its place, with
/// items taken for paths where they have a preview.
pub proof fn law_hits_are_those_of_the_matcher(p: Picker, place: u32, k: int)
    requires
        0 <= k < picker::filter_count(p.columns@),
        k <= usize::MAX,
    ensures
        query_hits(p, place).len() == picker::filter_count(p.columns@),
        query_hits(p, place)[k] == numbers(
            matcher::hit_places(p.matcher, place, k as usize, p.file_preview || p.custom_preview),
        ),
{
}

proof fn lemma_separator(x: int, y: int, n: int, style: Style, i: int)
    requires
        0 <= n,
    ensures
        separator_draws(x, y, n, style).len() == n,
        0 <= i < n ==> separator_draws(x, y, n, style)[i] == (draw::Draw::Glyph {
            x: x + i,
            y,
            symbol: '─',
            style,
        }),
    decreases n,
{
    if n > 0 {
        lemma_separator(x, y, n - 1, style, i);
    }
}

/// The bar shows the counts where the layout has them; below it a rule goes across the inside of the
/// border.
pub proof fn law_bar_shows_the_counts(area: Rect, layout: Layout, theme: Theme, i: int)
    requires
        area.wf(),
        area.width >= 2,
        area.height >= 2,
        0 <= i < area.width - 2,
    ensures
        bar_draws(area, layout, theme).len() == area.width - 1,
        bar_draws(area, layout, theme)[0] == (draw::Draw::Text {
            x: layout.count_x as int,
            y: layout.count_y as int,
            text: layout.count@,
            max: layout.count_width as int,
            style: theme.text,
        }),
        bar_draws(area, layout, theme)[1 + i] == (draw::Draw::Glyph {
            x: area.x + 1 + i,
            y: area.y + 2,
            symbol: '─',
            style: theme.separator,
        }),
{
    let inner = area.inside();
    lemma_separator(inner.x as int, inner.y + 1, inner.width as int, theme.separator, i);
}

} // verus!
