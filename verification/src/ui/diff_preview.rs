//! The preview of a diff: which lines are compared word by word, and how the lines are drawn.

use vstd::prelude::*;

use crate::bytes;
use crate::bytes::char_index;
use crate::number;
use crate::number::decimal_text;
use crate::text::{chars_of, extend, extend_str, string_between, string_of};
use crate::ui::blame;
use crate::ui::blame::push_right;
use crate::ui::diff_lines;
use crate::ui::diff_lines::{DiffLine, WordSegment};
use crate::ui::draw;
use crate::ui::draw::{Canvas, Color, Modifiers, Rect, Style, Theme, UnderlineStyle};
use crate::ui::hunks::Hunk;
use crate::ui::markdown;
use crate::ui::markdown::Segment;
use crate::ui::wrap;
use crate::ui::wrap::text_width;

verus! {

broadcast use vstd::string::group_string_axioms;

// ---------------------------------------------------------------------------------------------
// Styles
// ---------------------------------------------------------------------------------------------

/// The styles of a diff.
#[derive(Debug, Clone, Copy, PartialEq, Eq, Structural)]
pub struct DiffStyles {
    pub plus: Style,
    pub minus: Style,
    pub context: Style,
    pub delta: Style,
    pub plus_emph: Style,
    pub minus_emph: Style,
}

/// A style with a background, where it has none of its own.
pub open spec fn on_background(style: Style, color: Color) -> Style {
    if style.bg is None {
        style.under(Style { bg: Some(color), ..Style::plain() })
    } else {
        style
    }
}

/// A style for what changed within a line: in bold, underlined and on a background of its own.
pub open spec fn emphasized(style: Style, color: Color) -> Style {
    style.under(
        Style {
            bg: Some(color),
            underline_style: Some(UnderlineStyle::Line),
            add_modifier: (Modifiers { bold: true, ..Modifiers::nothing() }).with(
                style.add_modifier,
            ),
            ..Style::plain()
        },
    )
}

/// The styles of a diff under a theme. Additions and deletions get a background, and unchanged
/// lines a colour, where the theme gives them none.
pub open spec fn styles(theme: Theme) -> DiffStyles {
    let plus = on_background(theme.diff_plus, Color::Rgb(40, 80, 40));
    let minus = on_background(theme.diff_minus, Color::Rgb(80, 40, 40));
    DiffStyles {
        plus,
        minus,
        context: if theme.diff_delta.fg is None && theme.diff_delta.bg is None {
            Style { fg: Some(Color::Rgb(108, 108, 108)), ..Style::plain() }
        } else {
            theme.diff_delta
        },
        delta: theme.diff_delta,
        plus_emph: emphasized(plus, Color::Rgb(40, 140, 40)),
        minus_emph: emphasized(minus, Color::Rgb(140, 40, 40)),
    }
}

fn with_background(style: Style, color: Color) -> (r: Style)
    ensures
        r == on_background(style, color),
{
    match style.bg {
        None => style.patch(Style::new().with_bg(color)),
        Some(_) => style,
    }
}

fn with_emphasis(style: Style, color: Color) -> (r: Style)
    ensures
        r == emphasized(style, color),
{
    let mut bold = Modifiers::none();
    bold.bold = true;
    let mut over = Style::new().with_bg(color).underlined();
    over.add_modifier = bold.union(style.add_modifier);
    style.patch(over)
}

/// The styles of a diff under a theme.
pub fn diff_styles(theme: &Theme) -> (r: DiffStyles)
    ensures
        r == styles(*theme),
{
    let plus = with_background(theme.diff_plus, Color::Rgb(40, 80, 40));
    let minus = with_background(theme.diff_minus, Color::Rgb(80, 40, 40));
    let context = match (theme.diff_delta.fg, theme.diff_delta.bg) {
        (None, None) => Style::new().with_fg(Color::Rgb(108, 108, 108)),
        _ => theme.diff_delta,
    };
    DiffStyles {
        plus,
        minus,
        context,
        delta: theme.diff_delta,
        plus_emph: with_emphasis(plus, Color::Rgb(40, 140, 40)),
        minus_emph: with_emphasis(minus, Color::Rgb(140, 40, 40)),
    }
}

/// A style with a highlight over it. The highlight does not change the background.
pub open spec fn highlighted(base: Style, over: Style) -> Style {
    let both = base.under(over);
    if base.bg is Some {
        Style { bg: base.bg, ..both }
    } else {
        both
    }
}

fn highlight(base: Style, over: Style) -> (r: Style)
    ensures
        r == highlighted(base, over),
{
    let mut both = base.patch(over);
    match base.bg {
        Some(_) => {
            both.bg = base.bg;
        },
        None => {},
    }
    both
}

/// Under every theme additions and deletions have a background, and no highlight takes it away.
pub proof fn law_changes_keep_their_background(theme: Theme, over: Style)
    ensures
        styles(theme).plus.bg is Some,
        styles(theme).minus.bg is Some,
        highlighted(styles(theme).plus, over).bg == styles(theme).plus.bg,
        highlighted(styles(theme).minus, over).bg == styles(theme).minus.bg,
        highlighted(styles(theme).plus_emph, over).bg == Some(Color::Rgb(40, 140, 40)),
        highlighted(styles(theme).minus_emph, over).bg == Some(Color::Rgb(140, 40, 40)),
{
}

// ---------------------------------------------------------------------------------------------
// Which lines are compared word by word
// ---------------------------------------------------------------------------------------------

/// How many lines of the diff are visible below the title.
pub open spec fn visible_lines(height: int, total: int) -> int {
    draw::least(draw::less(height, 1), total)
}

/// The indices of the deletions among the lines from `from` up to `to`.
pub open spec fn deletions_in(lines: Seq<DiffLine>, from: int, to: int) -> Seq<usize>
    decreases to - from,
{
    if to <= from {
        Seq::empty()
    } else if to - 1 < lines.len() && lines[to - 1] is Deletion {
        deletions_in(lines, from, to - 1).push((to - 1) as usize)
    } else {
        deletions_in(lines, from, to - 1)
    }
}

/// The indices of the additions among the lines from `from` up to `to`.
pub open spec fn additions_in(lines: Seq<DiffLine>, from: int, to: int) -> Seq<usize>
    decreases to - from,
{
    if to <= from {
        Seq::empty()
    } else if to - 1 < lines.len() && lines[to - 1] is Addition {
        additions_in(lines, from, to - 1).push((to - 1) as usize)
    } else {
        additions_in(lines, from, to - 1)
    }
}

/// The first `n` pairs of a deletion and an addition, without those that are both out of sight.
pub open spec fn pairs_of(
    deletions: Seq<usize>,
    additions: Seq<usize>,
    n: int,
    visible: int,
) -> Seq<(usize, usize)>
    decreases n,
{
    if n <= 0 {
        Seq::empty()
    } else {
        let before = pairs_of(deletions, additions, n - 1, visible);
        if deletions[n - 1] > visible && additions[n - 1] > visible {
            before
        } else {
            before.push((deletions[n - 1], additions[n - 1]))
        }
    }
}

/// The pairs within one hunk: the first deletion with the first addition, and so on. A hunk that
/// starts out of sight has none.
pub open spec fn hunk_pairs(
    lines: Seq<DiffLine>,
    hunk: (usize, usize),
    visible: int,
) -> Seq<(usize, usize)> {
    if hunk.0 > visible {
        Seq::empty()
    } else {
        let deletions = deletions_in(lines, hunk.0 as int, hunk.1 as int);
        let additions = additions_in(lines, hunk.0 as int, hunk.1 as int);
        pairs_of(
            deletions,
            additions,
            draw::least(deletions.len() as int, additions.len() as int),
            visible,
        )
    }
}

/// The pairs of lines that may be compared word by word, hunk by hunk.
pub open spec fn all_pairs(
    lines: Seq<DiffLine>,
    hunks: Seq<(usize, usize)>,
    visible: int,
) -> Seq<(usize, usize)>
    decreases hunks.len(),
{
    if hunks.len() == 0 {
        Seq::empty()
    } else {
        all_pairs(lines, hunks.drop_last(), visible) + hunk_pairs(lines, hunks.last(), visible)
    }
}

proof fn lemma_deletions_in(lines: Seq<DiffLine>, from: int, to: int)
    requires
        0 <= from,
        to <= usize::MAX,
    ensures
        forall|k: int|
            0 <= k < deletions_in(lines, from, to).len() ==> {
                &&& from <= #[trigger] deletions_in(lines, from, to)[k] < to
                &&& deletions_in(lines, from, to)[k] < lines.len()
                &&& lines[deletions_in(lines, from, to)[k] as int] is Deletion
            },
    decreases to - from,
{
    if to > from {
        lemma_deletions_in(lines, from, to - 1);
    }
}

proof fn lemma_additions_in(lines: Seq<DiffLine>, from: int, to: int)
    requires
        0 <= from,
        to <= usize::MAX,
    ensures
        forall|k: int|
            0 <= k < additions_in(lines, from, to).len() ==> {
                &&& from <= #[trigger] additions_in(lines, from, to)[k] < to
                &&& additions_in(lines, from, to)[k] < lines.len()
                &&& lines[additions_in(lines, from, to)[k] as int] is Addition
            },
    decreases to - from,
{
    if to > from {
        lemma_additions_in(lines, from, to - 1);
    }
}

/// Whether each pair names a deletion and an addition.
pub open spec fn are_changes(lines: Seq<DiffLine>, pairs: Seq<(usize, usize)>) -> bool {
    forall|k: int|
        0 <= k < pairs.len() ==> {
            let (d, a) = #[trigger] pairs[k];
            d < lines.len() && a < lines.len() && lines[d as int] is Deletion
                && lines[a as int] is Addition
        }
}

/// Whether both lines of a pair lie in a hunk, and the pair names a deletion and an addition.
spec fn is_pair_in(lines: Seq<DiffLine>, pair: (usize, usize), hunk: (usize, usize)) -> bool {
    pair_lies_in(pair, hunk) && pair.0 < lines.len() && pair.1 < lines.len()
        && lines[pair.0 as int] is Deletion && lines[pair.1 as int] is Addition
}

proof fn lemma_pairs_of(
    lines: Seq<DiffLine>,
    hunk: (usize, usize),
    deletions: Seq<usize>,
    additions: Seq<usize>,
    n: int,
    visible: int,
)
    requires
        deletions == deletions_in(lines, hunk.0 as int, hunk.1 as int),
        additions == additions_in(lines, hunk.0 as int, hunk.1 as int),
        n <= deletions.len(),
        n <= additions.len(),
    ensures
        forall|k: int|
            0 <= k < pairs_of(deletions, additions, n, visible).len() ==> is_pair_in(
                lines,
                #[trigger] pairs_of(deletions, additions, n, visible)[k],
                hunk,
            ),
    decreases n,
{
    if n > 0 {
        lemma_pairs_of(lines, hunk, deletions, additions, n - 1, visible);
        lemma_deletions_in(lines, hunk.0 as int, hunk.1 as int);
        lemma_additions_in(lines, hunk.0 as int, hunk.1 as int);
        assert(deletions[n - 1] == deletions_in(lines, hunk.0 as int, hunk.1 as int)[n - 1]);
        assert(additions[n - 1] == additions_in(lines, hunk.0 as int, hunk.1 as int)[n - 1]);
        let before = pairs_of(deletions, additions, n - 1, visible);
        let all = pairs_of(deletions, additions, n, visible);
        assert forall|k: int| 0 <= k < all.len() implies is_pair_in(
            lines,
            #[trigger] all[k],
            hunk,
        ) by {
            if k < before.len() {
                assert(all[k] == before[k]);
            }
        }
    }
}

/// Deletions are paired with additions within the same hunk only.
pub proof fn law_pairs_stay_within_a_hunk(
    lines: Seq<DiffLine>,
    hunks: Seq<(usize, usize)>,
    visible: int,
)
    ensures
        are_changes(lines, all_pairs(lines, hunks, visible)),
        forall|k: int|
            0 <= k < all_pairs(lines, hunks, visible).len() ==> exists|h: int|
                0 <= h < hunks.len() && pair_lies_in(
                    #[trigger] all_pairs(lines, hunks, visible)[k],
                    #[trigger] hunks[h],
                ),
    decreases hunks.len(),
{
    if hunks.len() > 0 {
        let before = hunks.drop_last();
        let all = all_pairs(lines, hunks, visible);
        let first = all_pairs(lines, before, visible);
        law_pairs_stay_within_a_hunk(lines, before, visible);
        let hunk = hunks.last();
        let here = hunk_pairs(lines, hunk, visible);
        if hunk.0 <= visible {
            lemma_pairs_of(
                lines,
                hunk,
                deletions_in(lines, hunk.0 as int, hunk.1 as int),
                additions_in(lines, hunk.0 as int, hunk.1 as int),
                draw::least(
                    deletions_in(lines, hunk.0 as int, hunk.1 as int).len() as int,
                    additions_in(lines, hunk.0 as int, hunk.1 as int).len() as int,
                ),
                visible,
            );
        }
        assert forall|k: int| 0 <= k < all.len() implies exists|h: int|
            0 <= h < hunks.len() && pair_lies_in(#[trigger] all[k], #[trigger] hunks[h]) by {
            if k < first.len() {
                assert(all[k] == first[k]);
                let h = choose|h: int|
                    0 <= h < before.len() && pair_lies_in(first[k], #[trigger] before[h]);
                assert(hunks[h] == before[h]);
            } else {
                assert(all[k] == here[k - first.len()]);
                assert(hunks[hunks.len() - 1] == hunk);
            }
        }
        assert forall|k: int| 0 <= k < all.len() implies {
            let (d, a) = #[trigger] all[k];
            d < lines.len() && a < lines.len() && lines[d as int] is Deletion
                && lines[a as int] is Addition
        } by {
            if k < first.len() {
                assert(all[k] == first[k]);
            } else {
                assert(all[k] == here[k - first.len()]);
            }
        }
    }
}

/// Whether both lines of a pair lie in a hunk.
pub open spec fn pair_lies_in(pair: (usize, usize), hunk: (usize, usize)) -> bool {
    hunk.0 <= pair.0 < hunk.1 && hunk.0 <= pair.1 < hunk.1
}

fn append_hunk_pairs(
    out: &mut Vec<(usize, usize)>,
    lines: &Vec<DiffLine>,
    hunk: (usize, usize),
    visible: usize,
)
    ensures
        final(out)@ == old(out)@ + hunk_pairs(lines@, hunk, visible as int),
{
    let ghost before = out@;
    if hunk.0 > visible {
        proof {
            assert(before + Seq::<(usize, usize)>::empty() =~= before);
        }
        return;
    }
    let mut deletions: Vec<usize> = Vec::new();
    let mut additions: Vec<usize> = Vec::new();
    let mut i: usize = hunk.0;
    while i < hunk.1
        invariant
            hunk.0 <= i,
            i <= hunk.1 || i == hunk.0,
            deletions@ == deletions_in(lines@, hunk.0 as int, i as int),
            additions@ == additions_in(lines@, hunk.0 as int, i as int),
        decreases hunk.1 - i,
    {
        if i < lines.len() {
            match &lines[i] {
                DiffLine::Deletion { .. } => {
                    deletions.push(i);
                },
                DiffLine::Addition { .. } => {
                    additions.push(i);
                },
                _ => {},
            }
        }
        i = i + 1;
    }
    proof {
        assert(deletions@ =~= deletions_in(lines@, hunk.0 as int, hunk.1 as int));
        assert(additions@ =~= additions_in(lines@, hunk.0 as int, hunk.1 as int));
    }
    let mut k: usize = 0;
    proof {
        assert(before + Seq::<(usize, usize)>::empty() =~= before);
    }
    while k < deletions.len() && k < additions.len()
        invariant
            k <= deletions@.len(),
            k <= additions@.len(),
            out@ == before + pairs_of(deletions@, additions@, k as int, visible as int),
        decreases deletions@.len() - k,
    {
        let ghost so_far = pairs_of(deletions@, additions@, k as int, visible as int);
        if deletions[k] > visible && additions[k] > visible {
        } else {
            out.push((deletions[k], additions[k]));
            proof {
                let pair = (deletions@[k as int], additions@[k as int]);
                assert((before + so_far).push(pair) =~= before + so_far.push(pair));
            }
        }
        k = k + 1;
    }
}

/// The pairs of lines that may be compared word by word in a preview of `height` rows, hunk by
/// hunk. `hunks` holds the first line of each and the one behind its last.
pub fn word_diff_pairs(lines: &Vec<DiffLine>, hunks: &Vec<(usize, usize)>, height: u16) -> (r: Vec<
    (usize, usize),
>)
    ensures
        r@ == all_pairs(lines@, hunks@, visible_lines(height as int, lines@.len() as int)),
        are_changes(lines@, r@),
{
    let rows: usize = height.saturating_sub(1) as usize;
    let visible: usize = if rows <= lines.len() {
        rows
    } else {
        lines.len()
    };
    let mut out: Vec<(usize, usize)> = Vec::new();
    let mut i: usize = 0;
    proof {
        assert(hunks@.take(0) =~= Seq::<(usize, usize)>::empty());
    }
    while i < hunks.len()
        invariant
            i <= hunks@.len(),
            out@ == all_pairs(lines@, hunks@.take(i as int), visible as int),
        decreases hunks@.len() - i,
    {
        proof {
            assert(hunks@.take(i + 1).drop_last() =~= hunks@.take(i as int));
            assert(hunks@.take(i + 1).last() == hunks@[i as int]);
        }
        append_hunk_pairs(&mut out, lines, hunks[i], visible);
        i = i + 1;
    }
    proof {
        assert(hunks@.take(i as int) =~= hunks@);
        law_pairs_stay_within_a_hunk(lines@, hunks@, visible as int);
    }
    out
}

// ---------------------------------------------------------------------------------------------
// The text of a line in pieces
// ---------------------------------------------------------------------------------------------

/// A range of bytes of a line and the style over it.
pub type Highlight = (usize, usize, Style);

/// Where byte `b` of a line lies in a part of it: `len` bytes from `offset` on.
pub open spec fn place(b: int, offset: int, len: int) -> int {
    draw::least(draw::less(b, offset), len)
}

/// A part of a line, `len` bytes from `offset` on, cut where highlights start and end, from byte
/// `last` of the part on. What lies before a highlight that starts behind the part is left out,
/// unless the part is the whole line.
pub open spec fn ranges(
    highlights: Seq<Highlight>,
    base: Style,
    offset: int,
    len: int,
    whole: bool,
    last: int,
) -> Seq<(int, int, Style)>
    decreases highlights.len(),
{
    if highlights.len() == 0 {
        if last < len {
            seq![(last, len, base)]
        } else {
            Seq::empty()
        }
    } else {
        let start = place(highlights[0].0 as int, offset, len);
        let end = place(highlights[0].1 as int, offset, len);
        let gap = if start > last && (whole || start < len) {
            seq![(last, start, base)]
        } else {
            Seq::empty()
        };
        let mark = if end > start {
            seq![(start, end, highlighted(base, highlights[0].2))]
        } else {
            Seq::empty()
        };
        gap + mark + ranges(highlights.skip(1), base, offset, len, whole, end)
    }
}

/// The text between two byte offsets.
pub open spec fn between(s: Seq<char>, from: int, to: int) -> Seq<char> {
    s.subrange(bytes::chars_before(s, from)->0, bytes::chars_before(s, to)->0)
}

/// Whether the ranges separate characters.
pub open spec fn cut_cleanly(s: Seq<char>, rs: Seq<(int, int, Style)>) -> bool {
    forall|i: int|
        0 <= i < rs.len() ==> bytes::chars_before(s, (#[trigger] rs[i]).0) is Some
            && bytes::chars_before(s, rs[i].1) is Some
}

/// The text in the ranges, each with its style.
pub open spec fn cut(s: Seq<char>, rs: Seq<(int, int, Style)>) -> Seq<(Seq<char>, Style)> {
    rs.map_values(|r: (int, int, Style)| (between(s, r.0, r.1), r.2))
}

/// A part of a line in pieces.
pub open spec fn part_pieces(
    s: Seq<char>,
    highlights: Seq<Highlight>,
    base: Style,
    offset: int,
    whole: bool,
) -> Seq<(Seq<char>, Style)> {
    if highlights.len() == 0 {
        seq![(s, base)]
    } else {
        cut(s, ranges(highlights, base, offset, bytes::byte_len(s) as int, whole, 0))
    }
}

/// Whether the highlights separate characters where they cut a part of a line.
pub open spec fn part_is_clean(
    s: Seq<char>,
    highlights: Seq<Highlight>,
    base: Style,
    offset: int,
    whole: bool,
) -> bool {
    highlights.len() > 0 ==> cut_cleanly(
        s,
        ranges(highlights, base, offset, bytes::byte_len(s) as int, whole, 0),
    )
}

/// The segments of a line in pieces, from byte `offset` of the line on.
pub open spec fn word_pieces(
    words: Seq<(Seq<char>, bool)>,
    highlights: Seq<Highlight>,
    base: Style,
    emph: Style,
    offset: int,
) -> Seq<(Seq<char>, Style)>
    decreases words.len(),
{
    if words.len() == 0 {
        Seq::empty()
    } else {
        let style = if words[0].1 {
            emph
        } else {
            base
        };
        part_pieces(words[0].0, highlights, style, offset, false) + word_pieces(
            words.skip(1),
            highlights,
            base,
            emph,
            offset + bytes::byte_len(words[0].0),
        )
    }
}

/// Whether the highlights separate characters where they cut the segments of a line.
pub open spec fn words_are_clean(
    words: Seq<(Seq<char>, bool)>,
    highlights: Seq<Highlight>,
    base: Style,
    emph: Style,
    offset: int,
) -> bool
    decreases words.len(),
{
    words.len() > 0 ==> {
        let style = if words[0].1 {
            emph
        } else {
            base
        };
        &&& part_is_clean(words[0].0, highlights, style, offset, false)
        &&& words_are_clean(
            words.skip(1),
            highlights,
            base,
            emph,
            offset + bytes::byte_len(words[0].0),
        )
    }
}

/// The content of a line in pieces: its segments where it was compared word by word, else the
/// whole.
pub open spec fn content_pieces(
    content: Seq<char>,
    words: Option<Seq<(Seq<char>, bool)>>,
    highlights: Seq<Highlight>,
    base: Style,
    emph: Style,
) -> Seq<(Seq<char>, Style)> {
    match words {
        Some(w) => if w.len() == 0 {
            seq![(content, base)]
        } else {
            word_pieces(w, highlights, base, emph, 0)
        },
        None => part_pieces(content, highlights, base, 0, true),
    }
}

/// Whether the highlights separate characters where they cut the content of a line.
pub open spec fn content_is_clean(
    content: Seq<char>,
    words: Option<Seq<(Seq<char>, bool)>>,
    highlights: Seq<Highlight>,
    base: Style,
    emph: Style,
) -> bool {
    match words {
        Some(w) => words_are_clean(w, highlights, base, emph, 0),
        None => part_is_clean(content, highlights, base, 0, true),
    }
}

/// The text of pieces, one behind the other.
pub open spec fn shown_text(pieces: Seq<(Seq<char>, Style)>) -> Seq<char>
    decreases pieces.len(),
{
    if pieces.len() == 0 {
        Seq::empty()
    } else {
        pieces[0].0 + shown_text(pieces.skip(1))
    }
}

/// Whether each highlight starts where the one before ends, or behind that.
pub open spec fn in_order(highlights: Seq<Highlight>, last: int) -> bool
    decreases highlights.len(),
{
    highlights.len() > 0 ==> last <= highlights[0].0 <= highlights[0].1 && in_order(
        highlights.skip(1),
        highlights[0].1 as int,
    )
}

proof fn lemma_between_joins(s: Seq<char>, a: int, b: int, c: int)
    requires
        a <= b <= c,
        bytes::chars_before(s, a) is Some,
        bytes::chars_before(s, b) is Some,
        bytes::chars_before(s, c) is Some,
    ensures
        between(s, a, b) + between(s, b, c) == between(s, a, c),
{
    bytes::lemma_chars_before(s, a);
    bytes::lemma_chars_before(s, b);
    bytes::lemma_chars_before(s, c);
    let i = bytes::chars_before(s, a)->0;
    let j = bytes::chars_before(s, b)->0;
    let k = bytes::chars_before(s, c)->0;
    if j < i {
        bytes::lemma_byte_len_take(s, j, i);
    }
    if k < j {
        bytes::lemma_byte_len_take(s, k, j);
    }
    assert(between(s, a, b) + between(s, b, c) =~= between(s, a, c));
}

proof fn lemma_shown_text_joins(a: Seq<(Seq<char>, Style)>, b: Seq<(Seq<char>, Style)>)
    ensures
        shown_text(a + b) == shown_text(a) + shown_text(b),
    decreases a.len(),
{
    if a.len() == 0 {
        assert(a + b =~= b);
        assert(shown_text(a) + shown_text(b) =~= shown_text(b));
    } else {
        assert((a + b).skip(1) =~= a.skip(1) + b);
        lemma_shown_text_joins(a.skip(1), b);
        assert(a[0].0 + (shown_text(a.skip(1)) + shown_text(b)) =~= (a[0].0 + shown_text(
            a.skip(1),
        )) + shown_text(b));
    }
}

proof fn lemma_cut_one(s: Seq<char>, r: (int, int, Style))
    ensures
        shown_text(cut(s, seq![r])) == between(s, r.0, r.1),
{
    let one = cut(s, seq![r]);
    assert(one =~= seq![(between(s, r.0, r.1), r.2)]);
    assert(one.skip(1) =~= Seq::<(Seq<char>, Style)>::empty());
    assert(shown_text(one.skip(1)) =~= Seq::<char>::empty());
    assert(one[0].0 + Seq::<char>::empty() =~= one[0].0);
}

proof fn lemma_cut_joins(s: Seq<char>, a: Seq<(int, int, Style)>, b: Seq<(int, int, Style)>)
    ensures
        shown_text(cut(s, a + b)) == shown_text(cut(s, a)) + shown_text(cut(s, b)),
{
    assert(cut(s, a + b) =~= cut(s, a) + cut(s, b));
    lemma_shown_text_joins(cut(s, a), cut(s, b));
}

proof fn lemma_ranges_cover(s: Seq<char>, highlights: Seq<Highlight>, base: Style, last: int)
    requires
        0 <= last <= bytes::byte_len(s),
        bytes::chars_before(s, last) is Some,
        in_order(highlights, last) || last == bytes::byte_len(s),
        cut_cleanly(s, ranges(highlights, base, 0, bytes::byte_len(s) as int, true, last)),
        highlights.len() > 0 ==> in_order(highlights.skip(1), highlights[0].1 as int)
            && highlights[0].0 <= highlights[0].1,
        last == bytes::byte_len(s) && highlights.len() > 0 ==> highlights[0].0 >= last,
    ensures
        shown_text(cut(s, ranges(highlights, base, 0, bytes::byte_len(s) as int, true, last)))
            == between(s, last, bytes::byte_len(s) as int),
    decreases highlights.len(),
{
    let len = bytes::byte_len(s) as int;
    let rs = ranges(highlights, base, 0, len, true, last);
    assert(s.take(s.len() as int) =~= s);
    bytes::lemma_chars_before_take(s, s.len() as int);
    assert(bytes::chars_before(s, len) is Some);
    bytes::lemma_chars_before(s, last);
    let none = Seq::<(int, int, Style)>::empty();
    assert(cut(s, none) =~= Seq::<(Seq<char>, Style)>::empty());
    if highlights.len() == 0 {
        if last < len {
            lemma_cut_one(s, (last, len, base));
        } else {
            assert(between(s, last, len) =~= Seq::<char>::empty());
        }
    } else {
        let start = place(highlights[0].0 as int, 0, len);
        let end = place(highlights[0].1 as int, 0, len);
        let gap = if start > last {
            seq![(last, start, base)]
        } else {
            none
        };
        let mark = if end > start {
            seq![(start, end, highlighted(base, highlights[0].2))]
        } else {
            none
        };
        let rest = ranges(highlights.skip(1), base, 0, len, true, end);
        assert(rs == gap + mark + rest);
        if start > last {
            assert(rs[0] == gap[0]);
        }
        if end > start {
            assert(rs[gap.len() as int] == mark[0]);
        }
        assert(bytes::chars_before(s, start) is Some);
        assert(bytes::chars_before(s, end) is Some);
        assert forall|i: int| 0 <= i < rest.len() implies bytes::chars_before(
            s,
            (#[trigger] rest[i]).0,
        ) is Some && bytes::chars_before(s, rest[i].1) is Some by {
            assert(rs[gap.len() + mark.len() + i] == rest[i]);
        }
        let more = highlights.skip(1);
        if more.len() > 0 {
            assert(more[0].0 >= highlights[0].1);
        }
        lemma_ranges_cover(s, more, base, end);
        lemma_cut_joins(s, gap + mark, rest);
        lemma_cut_joins(s, gap, mark);
        if start > last {
            lemma_cut_one(s, gap[0]);
        } else {
            assert(between(s, last, start) =~= Seq::<char>::empty());
        }
        if end > start {
            lemma_cut_one(s, mark[0]);
        } else {
            bytes::lemma_chars_before(s, start);
            assert(between(s, start, end) =~= Seq::<char>::empty());
        }
        lemma_between_joins(s, last, start, end);
        lemma_between_joins(s, last, end, len);
    }
}

/// A line that was not compared word by word is shown whole, whatever is highlighted in it.
pub proof fn law_highlights_keep_the_text(
    content: Seq<char>,
    highlights: Seq<Highlight>,
    base: Style,
    emph: Style,
)
    requires
        in_order(highlights, 0),
        content_is_clean(content, None, highlights, base, emph),
    ensures
        shown_text(content_pieces(content, None, highlights, base, emph)) == content,
{
    let pieces = content_pieces(content, None, highlights, base, emph);
    let len = bytes::byte_len(content) as int;
    if highlights.len() == 0 {
        assert(pieces.skip(1) =~= Seq::<(Seq<char>, Style)>::empty());
        assert(shown_text(pieces.skip(1)) =~= Seq::<char>::empty());
        assert(content + Seq::<char>::empty() =~= content);
    } else {
        lemma_ranges_cover(content, highlights, base, 0);
        assert(content.take(content.len() as int) =~= content);
        bytes::lemma_chars_before_take(content, content.len() as int);
        assert(between(content, 0, len) =~= content);
    }
}

/// The texts of the segments, one behind the other.
pub open spec fn words_text(words: Seq<(Seq<char>, bool)>) -> Seq<char>
    decreases words.len(),
{
    if words.len() == 0 {
        Seq::empty()
    } else {
        words[0].0 + words_text(words.skip(1))
    }
}

/// A line that was compared word by word, with nothing highlighted in it, shows all its segments.
pub proof fn law_segments_keep_the_text(
    words: Seq<(Seq<char>, bool)>,
    base: Style,
    emph: Style,
    offset: int,
)
    ensures
        shown_text(word_pieces(words, Seq::empty(), base, emph, offset)) == words_text(words),
    decreases words.len(),
{
    if words.len() > 0 {
        let style = if words[0].1 {
            emph
        } else {
            base
        };
        let more = offset + bytes::byte_len(words[0].0);
        let one = seq![(words[0].0, style)];
        law_segments_keep_the_text(words.skip(1), base, emph, more);
        lemma_shown_text_joins(one, word_pieces(words.skip(1), Seq::empty(), base, emph, more));
        assert(one.skip(1) =~= Seq::<(Seq<char>, Style)>::empty());
        assert(shown_text(one) =~= words[0].0 + shown_text(one.skip(1)));
        assert(shown_text(one) =~= words[0].0);
    }
}

/// Ranges of bytes as numbers.
spec fn ranges_of(v: Seq<(usize, usize, Style)>) -> Seq<(int, int, Style)> {
    v.map_values(|r: (usize, usize, Style)| (r.0 as int, r.1 as int, r.2))
}

fn place_of(b: usize, offset: usize, len: usize) -> (r: usize)
    ensures
        r == place(b as int, offset as int, len as int),
{
    let at: usize = b.saturating_sub(offset);
    if at <= len {
        at
    } else {
        len
    }
}

fn byte_ranges(
    highlights: &Vec<Highlight>,
    base: Style,
    offset: usize,
    len: usize,
    whole: bool,
) -> (r: Vec<(usize, usize, Style)>)
    ensures
        ranges_of(r@) == ranges(highlights@, base, offset as int, len as int, whole, 0),
{
    let ghost want = ranges(highlights@, base, offset as int, len as int, whole, 0);
    let mut out: Vec<(usize, usize, Style)> = Vec::new();
    let mut last: usize = 0;
    let mut i: usize = 0;
    proof {
        assert(highlights@.skip(0) =~= highlights@);
        assert(ranges_of(out@) + want =~= want);
    }
    while i < highlights.len()
        invariant
            i <= highlights@.len(),
            ranges_of(out@) + ranges(
                highlights@.skip(i as int),
                base,
                offset as int,
                len as int,
                whole,
                last as int,
            ) == want,
        decreases highlights@.len() - i,
    {
        let ghost before = ranges_of(out@);
        let (from, to, style) = highlights[i];
        let start = place_of(from, offset, len);
        let end = place_of(to, offset, len);
        proof {
            assert(highlights@.skip(i as int)[0] == highlights@[i as int]);
            assert(highlights@.skip(i as int).skip(1) =~= highlights@.skip(i + 1));
        }
        let ghost rest = ranges(
            highlights@.skip(i + 1),
            base,
            offset as int,
            len as int,
            whole,
            end as int,
        );
        let ghost mut gap: Seq<(int, int, Style)> = Seq::empty();
        let ghost mut mark: Seq<(int, int, Style)> = Seq::empty();
        if start > last && (whole || start < len) {
            out.push((last, start, base));
            proof {
                gap = seq![(last as int, start as int, base)];
            }
        }
        proof {
            assert(ranges_of(out@) =~= before + gap);
        }
        let ghost middle = out@;
        if end > start {
            let over = highlight(base, style);
            out.push((start, end, over));
            proof {
                mark = seq![(start as int, end as int, over)];
            }
        }
        proof {
            assert(ranges_of(out@) =~= ranges_of(middle) + mark);
            assert(before + (gap + mark + rest) =~= before + gap + mark + rest);
        }
        last = end;
        i = i + 1;
    }
    proof {
        assert(highlights@.skip(i as int) =~= Seq::<Highlight>::empty());
    }
    let ghost before = ranges_of(out@);
    if last < len {
        out.push((last, len, base));
        proof {
            assert(ranges_of(out@) =~= before + seq![(last as int, len as int, base)]);
        }
    } else {
        proof {
            assert(before + Seq::<(int, int, Style)>::empty() =~= before);
        }
    }
    out
}

proof fn lemma_ranges_ascend(
    highlights: Seq<Highlight>,
    base: Style,
    offset: int,
    len: int,
    whole: bool,
    last: int,
)
    ensures
        forall|k: int|
            0 <= k < ranges(highlights, base, offset, len, whole, last).len() ==> (
            #[trigger] ranges(highlights, base, offset, len, whole, last)[k]).0 <= ranges(
                highlights,
                base,
                offset,
                len,
                whole,
                last,
            )[k].1,
    decreases highlights.len(),
{
    if highlights.len() > 0 {
        let start = place(highlights[0].0 as int, offset, len);
        let end = place(highlights[0].1 as int, offset, len);
        let rest = ranges(highlights.skip(1), base, offset, len, whole, end);
        let all = ranges(highlights, base, offset, len, whole, last);
        lemma_ranges_ascend(highlights.skip(1), base, offset, len, whole, end);
        assert forall|k: int| 0 <= k < all.len() implies (#[trigger] all[k]).0 <= all[k].1 by {
            let first = all.len() - rest.len();
            if k >= first {
                assert(all[k] == rest[k - first]);
            }
        }
    }
}

fn byte_length(s: &str) -> (r: usize)
    ensures
        r == bytes::byte_len(s@),
{
    s.as_bytes().len()
}

fn append_part(
    out: &mut Vec<Segment>,
    s: &str,
    highlights: &Vec<Highlight>,
    base: Style,
    offset: usize,
    whole: bool,
)
    requires
        part_is_clean(s@, highlights@, base, offset as int, whole),
    ensures
        markdown::segments(final(out)@) == markdown::segments(old(out)@) + part_pieces(
            s@,
            highlights@,
            base,
            offset as int,
            whole,
        ),
{
    let ghost before = markdown::segments(out@);
    let t = chars_of(s);
    if highlights.len() == 0 {
        out.push((string_of(&t), base));
        proof {
            assert(markdown::segments(out@) =~= before + seq![(s@, base)]);
        }
        return;
    }
    let rs = byte_ranges(highlights, base, offset, byte_length(s), whole);
    let ghost want = ranges_of(rs@);
    let ghost pieces = cut(s@, want);
    let mut i: usize = 0;
    proof {
        assert(pieces.take(0) =~= Seq::<(Seq<char>, Style)>::empty());
        assert(before + pieces.take(0) =~= before);
        assert(want.len() == rs@.len());
        lemma_ranges_ascend(
            highlights@,
            base,
            offset as int,
            bytes::byte_len(s@) as int,
            whole,
            0,
        );
        assert forall|k: int| 0 <= k < want.len() implies (#[trigger] want[k]).0 <= want[k].1 by {
            assert(want[k] == ranges(
                highlights@,
                base,
                offset as int,
                bytes::byte_len(s@) as int,
                whole,
                0,
            )[k]);
        }
    }
    while i < rs.len()
        invariant
            i <= rs@.len(),
            t@ == s@,
            want == ranges_of(rs@),
            pieces == cut(s@, want),
            cut_cleanly(s@, want),
            forall|k: int| 0 <= k < want.len() ==> (#[trigger] want[k]).0 <= want[k].1,
            markdown::segments(out@) == before + pieces.take(i as int),
        decreases rs@.len() - i,
    {
        let ghost so_far = out@;
        let (from, to, style) = rs[i];
        proof {
            assert(want[i as int] == (from as int, to as int, style));
            bytes::lemma_chars_before(s@, from as int);
            bytes::lemma_chars_before(s@, to as int);
        }
        let a = char_index(&t, from);
        let b = char_index(&t, to);
        match (a, b) {
            (Some(a), Some(b)) => {
                proof {
                    if b < a {
                        bytes::lemma_byte_len_take(s@, b as int, a as int);
                    }
                }
                out.push((string_between(&t, a, b), style));
            },
            _ => {},
        }
        proof {
            assert(pieces[i as int] == (between(s@, from as int, to as int), style));
            assert(pieces.take(i + 1) =~= pieces.take(i as int).push(pieces[i as int]));
            assert(markdown::segments(out@) =~= markdown::segments(so_far).push(
                pieces[i as int],
            ));
            assert((before + pieces.take(i as int)).push(pieces[i as int]) =~= before
                + pieces.take(i + 1));
        }
        i = i + 1;
    }
    proof {
        assert(pieces.take(i as int) =~= pieces);
    }
}

proof fn lemma_ranges_far(
    highlights: Seq<Highlight>,
    base: Style,
    near: int,
    far: int,
    len: int,
    whole: bool,
    last: int,
)
    requires
        near >= usize::MAX,
        far >= usize::MAX,
    ensures
        ranges(highlights, base, near, len, whole, last) == ranges(
            highlights,
            base,
            far,
            len,
            whole,
            last,
        ),
    decreases highlights.len(),
{
    if highlights.len() > 0 {
        let end = place(highlights[0].1 as int, near, len);
        assert(place(highlights[0].0 as int, near, len) == place(highlights[0].0 as int, far, len));
        assert(end == place(highlights[0].1 as int, far, len));
        lemma_ranges_far(highlights.skip(1), base, near, far, len, whole, end);
    }
}

fn append_words(
    out: &mut Vec<Segment>,
    words: &Vec<WordSegment>,
    highlights: &Vec<Highlight>,
    base: Style,
    emph: Style,
)
    requires
        words_are_clean(diff_lines::words_of(words@), highlights@, base, emph, 0),
    ensures
        markdown::segments(final(out)@) == markdown::segments(old(out)@) + word_pieces(
            diff_lines::words_of(words@),
            highlights@,
            base,
            emph,
            0,
        ),
{
    let ghost all = diff_lines::words_of(words@);
    let ghost want = markdown::segments(out@) + word_pieces(all, highlights@, base, emph, 0);
    let mut i: usize = 0;
    let mut offset: usize = 0;
    let ghost mut exact: int = 0;
    proof {
        assert(all.skip(0) =~= all);
    }
    while i < words.len()
        invariant
            i <= words@.len(),
            all == diff_lines::words_of(words@),
            exact >= 0,
            offset == draw::least(exact, usize::MAX as int),
            words_are_clean(all.skip(i as int), highlights@, base, emph, exact),
            markdown::segments(out@) + word_pieces(
                all.skip(i as int),
                highlights@,
                base,
                emph,
                exact,
            ) == want,
        decreases words@.len() - i,
    {
        let word = &words[i];
        let style = if word.is_emph {
            emph
        } else {
            base
        };
        let ghost before = markdown::segments(out@);
        proof {
            assert(all[i as int] == diff_lines::word(words@[i as int]));
            assert(all.skip(i as int)[0] == (word.text@, word.is_emph));
            assert(all.skip(i as int).skip(1) =~= all.skip(i + 1));
            if exact >= usize::MAX {
                lemma_ranges_far(
                    highlights@,
                    style,
                    offset as int,
                    exact,
                    bytes::byte_len(word.text@) as int,
                    false,
                    0,
                );
            }
        }
        let ghost rest = word_pieces(
            all.skip(i + 1),
            highlights@,
            base,
            emph,
            exact + bytes::byte_len(word.text@),
        );
        append_part(out, word.text.as_str(), highlights, style, offset, false);
        proof {
            let here = part_pieces(word.text@, highlights@, style, exact, false);
            assert(before + (here + rest) =~= before + here + rest);
            exact = exact + bytes::byte_len(word.text@);
        }
        offset = offset.saturating_add(byte_length(word.text.as_str()));
        i = i + 1;
    }
    proof {
        assert(all.skip(i as int) =~= Seq::<(Seq<char>, bool)>::empty());
        assert(markdown::segments(out@) + Seq::<(Seq<char>, Style)>::empty()
            =~= markdown::segments(out@));
    }
}

/// The segments of a line, where it was compared word by word.
pub open spec fn opt_words(words: Option<Vec<WordSegment>>) -> Option<Seq<(Seq<char>, bool)>> {
    match words {
        Some(w) => Some(diff_lines::words_of(w@)),
        None => None,
    }
}

fn append_content(
    out: &mut Vec<Segment>,
    content: &str,
    words: &Option<Vec<WordSegment>>,
    highlights: &Vec<Highlight>,
    base: Style,
    emph: Style,
)
    requires
        content_is_clean(content@, opt_words(*words), highlights@, base, emph),
    ensures
        markdown::segments(final(out)@) == markdown::segments(old(out)@) + content_pieces(
            content@,
            opt_words(*words),
            highlights@,
            base,
            emph,
        ),
{
    match words {
        Some(w) => {
            proof {
                assert(diff_lines::words_of(w@).len() == w@.len());
            }
            if w.len() == 0 {
                let ghost before = markdown::segments(out@);
                let t = chars_of(content);
                out.push((string_of(&t), base));
                proof {
                    assert(markdown::segments(out@) =~= before + seq![(content@, base)]);
                }
            } else {
                append_words(out, w, highlights, base, emph);
            }
        },
        None => append_part(out, content, highlights, base, 0, true),
    }
}

// ---------------------------------------------------------------------------------------------
// Lines
// ---------------------------------------------------------------------------------------------

/// A line number in four columns, or as many spaces where there is none.
pub open spec fn number_column(n: Option<u32>) -> Seq<char> {
    match n {
        Some(n) => blame::right_aligned(number::decimal(n as nat), 4),
        None => "    "@,
    }
}

/// The columns in front of the content of a line.
pub open spec fn gutter(line: DiffLine, styles: DiffStyles) -> Seq<(Seq<char>, Style)> {
    match line {
        DiffLine::HunkHeader { .. } => Seq::empty(),
        DiffLine::Context { base_line, doc_line, .. } => seq![
            (number_column(base_line), styles.context),
            (" "@, styles.context),
            (number_column(doc_line), styles.context),
            ("  │"@, styles.context),
            (" "@, styles.context),
        ],
        DiffLine::Deletion { base_line, .. } => seq![
            ("     "@, styles.minus),
            (number_column(Some(base_line)), styles.minus),
            ("-"@, styles.minus),
            (" │"@, styles.minus),
            (" "@, styles.minus),
        ],
        DiffLine::Addition { doc_line, .. } => seq![
            ("     "@, styles.plus),
            (number_column(Some(doc_line)), styles.plus),
            ("+"@, styles.plus),
            (" │"@, styles.plus),
            (" "@, styles.plus),
        ],
    }
}

/// A line of the diff in pieces.
pub open spec fn line_pieces(
    line: DiffLine,
    words: Option<Seq<(Seq<char>, bool)>>,
    highlights: Seq<Highlight>,
    styles: DiffStyles,
) -> Seq<(Seq<char>, Style)> {
    gutter(line, styles) + match line {
        DiffLine::HunkHeader { text } => seq![(text@, styles.delta)],
        DiffLine::Context { content, .. } => content_pieces(
            content@,
            None,
            highlights,
            styles.context,
            styles.context,
        ),
        DiffLine::Deletion { content, .. } => content_pieces(
            content@,
            words,
            highlights,
            styles.minus,
            styles.minus_emph,
        ),
        DiffLine::Addition { content, .. } => content_pieces(
            content@,
            words,
            highlights,
            styles.plus,
            styles.plus_emph,
        ),
    }
}

/// Whether the highlights separate characters where they cut a line.
pub open spec fn line_is_clean(
    line: DiffLine,
    words: Option<Seq<(Seq<char>, bool)>>,
    highlights: Seq<Highlight>,
    styles: DiffStyles,
) -> bool {
    match line {
        DiffLine::HunkHeader { .. } => true,
        DiffLine::Context { content, .. } => content_is_clean(
            content@,
            None,
            highlights,
            styles.context,
            styles.context,
        ),
        DiffLine::Deletion { content, .. } => content_is_clean(
            content@,
            words,
            highlights,
            styles.minus,
            styles.minus_emph,
        ),
        DiffLine::Addition { content, .. } => content_is_clean(
            content@,
            words,
            highlights,
            styles.plus,
            styles.plus_emph,
        ),
    }
}

fn number_text(n: &Option<u32>) -> (r: String)
    ensures
        r@ == number_column(*n),
{
    let mut t: Vec<char> = Vec::new();
    match n {
        Some(n) => {
            let d = decimal_text(*n as u64);
            push_right(&mut t, &d, 4);
            proof {
                assert(t@ =~= blame::right_aligned(d@, 4));
            }
        },
        None => {
            extend_str(&mut t, "    ");
            proof {
                assert(t@ =~= "    "@);
            }
        },
    }
    string_of(&t)
}

fn push_piece(out: &mut Vec<Segment>, text: String, style: Style)
    ensures
        markdown::segments(final(out)@) == markdown::segments(old(out)@).push((text@, style)),
{
    let ghost before = markdown::segments(out@);
    out.push((text, style));
    proof {
        assert(markdown::segments(out@) =~= before.push((text@, style)));
    }
}

fn push_label(out: &mut Vec<Segment>, text: &str, style: Style)
    ensures
        markdown::segments(final(out)@) == markdown::segments(old(out)@).push((text@, style)),
{
    let t = chars_of(text);
    push_piece(out, string_of(&t), style);
}

fn gutter_of(line: &DiffLine, styles: &DiffStyles) -> (r: Vec<Segment>)
    ensures
        markdown::segments(r@) == gutter(*line, *styles),
{
    let mut out: Vec<Segment> = Vec::new();
    proof {
        assert(markdown::segments(out@) =~= Seq::<(Seq<char>, Style)>::empty());
    }
    match line {
        DiffLine::HunkHeader { .. } => {},
        DiffLine::Context { base_line, doc_line, .. } => {
            push_piece(&mut out, number_text(base_line), styles.context);
            push_label(&mut out, " ", styles.context);
            push_piece(&mut out, number_text(doc_line), styles.context);
            push_label(&mut out, "  │", styles.context);
            push_label(&mut out, " ", styles.context);
        },
        DiffLine::Deletion { base_line, .. } => {
            push_label(&mut out, "     ", styles.minus);
            push_piece(&mut out, number_text(&Some(*base_line)), styles.minus);
            push_label(&mut out, "-", styles.minus);
            push_label(&mut out, " │", styles.minus);
            push_label(&mut out, " ", styles.minus);
        },
        DiffLine::Addition { doc_line, .. } => {
            push_label(&mut out, "     ", styles.plus);
            push_piece(&mut out, number_text(&Some(*doc_line)), styles.plus);
            push_label(&mut out, "+", styles.plus);
            push_label(&mut out, " │", styles.plus);
            push_label(&mut out, " ", styles.plus);
        },
    }
    proof {
        assert(markdown::segments(out@) =~= gutter(*line, *styles));
    }
    out
}

/// A line of the diff in pieces, each with its style. `words` are the segments of the line, where
/// it was compared word by word; `highlights` are the ranges of its bytes that are highlighted.
pub fn diff_line_pieces(
    line: &DiffLine,
    words: &Option<Vec<WordSegment>>,
    highlights: &Vec<Highlight>,
    styles: &DiffStyles,
) -> (r: Vec<Segment>)
    requires
        line_is_clean(*line, opt_words(*words), highlights@, *styles),
    ensures
        markdown::segments(r@) == line_pieces(*line, opt_words(*words), highlights@, *styles),
{
    let mut out = gutter_of(line, styles);
    let ghost front = gutter(*line, *styles);
    match line {
        DiffLine::HunkHeader { text } => {
            push_label(&mut out, text.as_str(), styles.delta);
            proof {
                assert(front.push((text@, styles.delta)) =~= front + seq![(text@, styles.delta)]);
            }
        },
        DiffLine::Context { content, .. } => {
            append_content(
                &mut out,
                content.as_str(),
                &None,
                highlights,
                styles.context,
                styles.context,
            );
        },
        DiffLine::Deletion { content, .. } => {
            append_content(
                &mut out,
                content.as_str(),
                words,
                highlights,
                styles.minus,
                styles.minus_emph,
            );
        },
        DiffLine::Addition { content, .. } => {
            append_content(
                &mut out,
                content.as_str(),
                words,
                highlights,
                styles.plus,
                styles.plus_emph,
            );
        },
    }
    out
}

// ---------------------------------------------------------------------------------------------
// Drawing
// ---------------------------------------------------------------------------------------------

/// Pieces drawn one behind the other from column `x` on, up to `right`.
pub open spec fn pieces_draws(
    pieces: Seq<(Seq<char>, Style)>,
    x: int,
    right: int,
    y: int,
) -> Seq<draw::Draw>
    decreases pieces.len(),
{
    if pieces.len() == 0 || x >= right {
        Seq::empty()
    } else {
        let (text, style) = pieces[0];
        let max = draw::least(wrap::display_width(text) as int, right - x);
        let here = if max > 0 {
            seq![draw::Draw::Text { x, y, text, max, style }]
        } else {
            Seq::empty()
        };
        here + pieces_draws(pieces.skip(1), x + wrap::advance(text), right, y)
    }
}

fn draw_pieces(canvas: &mut Canvas, pieces: &Vec<Segment>, x: u16, right: u16, y: u16)
    ensures
        final(canvas)@ == old(canvas)@ + pieces_draws(
            markdown::segments(pieces@),
            x as int,
            right as int,
            y as int,
        ),
{
    let ghost all = markdown::segments(pieces@);
    let ghost want = canvas@ + pieces_draws(all, x as int, right as int, y as int);
    let mut at: u32 = x as u32;
    let mut i: usize = 0;
    proof {
        assert(all.skip(0) =~= all);
    }
    while i < pieces.len() && at < right as u32
        invariant
            i <= pieces@.len(),
            at <= 0x2_0000,
            all == markdown::segments(pieces@),
            canvas@ + pieces_draws(all.skip(i as int), at as int, right as int, y as int) == want,
        decreases pieces@.len() - i,
    {
        let piece = &pieces[i];
        let ghost start = canvas@;
        let width: usize = text_width(piece.0.as_str());
        let room: usize = (right as u32 - at) as usize;
        let max: usize = if width <= room {
            width
        } else {
            room
        };
        proof {
            assert(all[i as int] == markdown::segment(pieces@[i as int]));
            assert(all.skip(i as int)[0] == (piece.0@, piece.1));
            assert(all.skip(i as int).skip(1) =~= all.skip(i + 1));
        }
        let step: u32 = (width % 65536) as u32;
        let ghost rest = pieces_draws(all.skip(i + 1), at + step, right as int, y as int);
        if max > 0 {
            canvas.text(at as u16, y, piece.0.as_str(), max, piece.1);
            proof {
                let here = draw::Draw::Text {
                    x: at as int,
                    y: y as int,
                    text: piece.0@,
                    max: max as int,
                    style: piece.1,
                };
                assert(start.push(here) + rest =~= start + (seq![here] + rest));
            }
        } else {
            proof {
                assert(start + (Seq::<draw::Draw>::empty() + rest) =~= start + rest);
            }
        }
        at = at + step;
        i = i + 1;
    }
    proof {
        assert(pieces_draws(all.skip(i as int), at as int, right as int, y as int) =~= Seq::<
            draw::Draw,
        >::empty());
        assert(canvas@ + Seq::<draw::Draw>::empty() =~= canvas@);
    }
}

/// The lines that the hunks add.
pub open spec fn lines_added(hunks: Seq<Hunk>) -> int
    decreases hunks.len(),
{
    if hunks.len() == 0 {
        0
    } else {
        lines_added(hunks.drop_last()) + draw::less(
            hunks.last().after.end as int,
            hunks.last().after.start as int,
        )
    }
}

/// The lines that the hunks remove.
pub open spec fn lines_removed(hunks: Seq<Hunk>) -> int
    decreases hunks.len(),
{
    if hunks.len() == 0 {
        0
    } else {
        lines_removed(hunks.drop_last()) + draw::less(
            hunks.last().before.end as int,
            hunks.last().before.start as int,
        )
    }
}

/// The title of the preview: the file, and how many lines were added and removed.
pub open spec fn title(file: Seq<char>, added: int, removed: int) -> Seq<char> {
    " "@ + file + ": +"@ + number::decimal(added as nat) + " -"@ + number::decimal(removed as nat)
        + " "@
}

proof fn lemma_counts_grow(hunks: Seq<Hunk>, k: int)
    requires
        0 <= k <= hunks.len(),
    ensures
        0 <= lines_added(hunks.take(k)) <= lines_added(hunks),
        0 <= lines_removed(hunks.take(k)) <= lines_removed(hunks),
    decreases hunks.len(),
{
    if hunks.len() == 0 {
        assert(hunks.take(k) =~= hunks);
    } else if k == hunks.len() {
        assert(hunks.take(k) =~= hunks);
        lemma_counts_grow(hunks.drop_last(), hunks.len() - 1);
        assert(hunks.drop_last().take(hunks.len() - 1) =~= hunks.drop_last());
    } else {
        assert(hunks.take(k) =~= hunks.drop_last().take(k));
        lemma_counts_grow(hunks.drop_last(), k);
    }
}

/// How many lines the hunks add, and how many they remove.
pub fn count_lines(hunks: &Vec<Hunk>) -> (r: (usize, usize))
    requires
        lines_added(hunks@) <= usize::MAX,
        lines_removed(hunks@) <= usize::MAX,
    ensures
        r.0 == lines_added(hunks@),
        r.1 == lines_removed(hunks@),
{
    let mut added: usize = 0;
    let mut removed: usize = 0;
    let mut i: usize = 0;
    proof {
        assert(hunks@.take(0) =~= Seq::<Hunk>::empty());
    }
    while i < hunks.len()
        invariant
            i <= hunks@.len(),
            lines_added(hunks@) <= usize::MAX,
            lines_removed(hunks@) <= usize::MAX,
            added == lines_added(hunks@.take(i as int)),
            removed == lines_removed(hunks@.take(i as int)),
        decreases hunks@.len() - i,
    {
        let hunk = &hunks[i];
        proof {
            assert(hunks@.take(i + 1).drop_last() =~= hunks@.take(i as int));
            assert(hunks@.take(i + 1).last() == hunks@[i as int]);
            lemma_counts_grow(hunks@, i + 1);
        }
        added = added + hunk.after.end.saturating_sub(hunk.after.start) as usize;
        removed = removed + hunk.before.end.saturating_sub(hunk.before.start) as usize;
        i = i + 1;
    }
    proof {
        assert(hunks@.take(i as int) =~= hunks@);
    }
    (added, removed)
}

fn title_text(file: &str, added: usize, removed: usize) -> (r: Vec<char>)
    ensures
        r@ == title(file@, added as int, removed as int),
{
    let mut t = chars_of(" ");
    extend_str(&mut t, file);
    extend_str(&mut t, ": +");
    let a = decimal_text(added as u64);
    extend(&mut t, &a);
    extend_str(&mut t, " -");
    let d = decimal_text(removed as u64);
    extend(&mut t, &d);
    extend_str(&mut t, " ");
    t
}

/// What is known of the lines of a diff besides their text, by index: the segments of those that
/// were compared word by word, and what is highlighted in them.
pub struct LineDetails {
    pub words: Vec<Option<Vec<WordSegment>>>,
    pub highlights: Vec<Vec<Highlight>>,
}

impl LineDetails {
    /// The segments of a line, where it was compared word by word.
    pub open spec fn words_at(&self, i: int) -> Option<Seq<(Seq<char>, bool)>> {
        if 0 <= i < self.words@.len() {
            opt_words(self.words@[i])
        } else {
            None
        }
    }

    /// What is highlighted in a line.
    pub open spec fn highlights_at(&self, i: int) -> Seq<Highlight> {
        if 0 <= i < self.highlights@.len() {
            self.highlights@[i]@
        } else {
            Seq::empty()
        }
    }
}

/// The first `n` lines of the diff, one below the other under the title.
pub open spec fn lines_draws(
    lines: Seq<DiffLine>,
    details: LineDetails,
    n: int,
    area: Rect,
    theme: Theme,
) -> Seq<draw::Draw>
    decreases n,
{
    if n <= 0 {
        Seq::empty()
    } else {
        lines_draws(lines, details, n - 1, area, theme) + pieces_draws(
            line_pieces(
                lines[n - 1],
                details.words_at(n - 1),
                details.highlights_at(n - 1),
                styles(theme),
            ),
            area.x as int,
            area.x + area.width,
            area.y + n,
        )
    }
}

/// Whether the highlights separate characters where they cut the visible lines.
pub open spec fn details_are_clean(
    lines: Seq<DiffLine>,
    details: LineDetails,
    n: int,
    theme: Theme,
) -> bool {
    forall|i: int|
        0 <= i < n ==> line_is_clean(
            #[trigger] lines[i],
            details.words_at(i),
            details.highlights_at(i),
            styles(theme),
        )
}

fn draw_line(
    canvas: &mut Canvas,
    line: &DiffLine,
    details: &LineDetails,
    i: usize,
    area: Rect,
    y: u16,
    styles: &DiffStyles,
)
    requires
        area.wf(),
        line_is_clean(
            *line,
            details.words_at(i as int),
            details.highlights_at(i as int),
            *styles,
        ),
    ensures
        final(canvas)@ == old(canvas)@ + pieces_draws(
            line_pieces(
                *line,
                details.words_at(i as int),
                details.highlights_at(i as int),
                *styles,
            ),
            area.x as int,
            area.x + area.width,
            y as int,
        ),
{
    let no_words: Option<Vec<WordSegment>> = None;
    let no_highlights: Vec<Highlight> = Vec::new();
    let words = if i < details.words.len() {
        &details.words[i]
    } else {
        &no_words
    };
    let highlights = if i < details.highlights.len() {
        &details.highlights[i]
    } else {
        &no_highlights
    };
    proof {
        assert(opt_words(*words) == details.words_at(i as int));
        assert(highlights@ =~= details.highlights_at(i as int));
    }
    let pieces = diff_line_pieces(line, words, highlights, styles);
    draw_pieces(canvas, &pieces, area.x, area.x + area.width, y);
}

/// Render diff content with syntax highlighting and word-level diff: a title, and below it as many
/// lines as there are rows for.
pub fn render_diff_preview(
    inner: Rect,
    lines: &Vec<DiffLine>,
    details: &LineDetails,
    hunks: &Vec<Hunk>,
    file_name: &str,
    theme: &Theme,
) -> (r: Canvas)
    requires
        inner.wf(),
        lines_added(hunks@) <= usize::MAX,
        lines_removed(hunks@) <= usize::MAX,
        details_are_clean(
            lines@,
            *details,
            visible_lines(inner.height as int, lines@.len() as int),
            *theme,
        ),
    ensures
        r@ == seq![
            draw::Draw::Text {
                x: inner.x as int,
                y: inner.y as int,
                text: title(file_name@, lines_added(hunks@), lines_removed(hunks@)),
                max: inner.width as int,
                style: theme.popup_info,
            },
        ] + lines_draws(
            lines@,
            *details,
            visible_lines(inner.height as int, lines@.len() as int),
            inner,
            *theme,
        ),
{
    let styles = diff_styles(theme);
    let (added, removed) = count_lines(hunks);
    let t = title_text(file_name, added, removed);
    let mut canvas = Canvas::new();
    canvas.chars(inner.x, inner.y, &t, inner.width as usize, theme.popup_info);
    let ghost head = canvas@;
    let rows: u16 = inner.height.saturating_sub(1);
    let n: u16 = if lines.len() < rows as usize {
        lines.len() as u16
    } else {
        rows
    };
    let mut i: u16 = 0;
    proof {
        assert(head + Seq::<draw::Draw>::empty() =~= head);
    }
    while i < n
        invariant
            i <= n <= lines@.len(),
            n <= rows,
            rows == draw::less(inner.height as int, 1),
            inner.wf(),
            n == visible_lines(inner.height as int, lines@.len() as int),
            styles == self::styles(*theme),
            details_are_clean(lines@, *details, n as int, *theme),
            canvas@ == head + lines_draws(lines@, *details, i as int, inner, *theme),
        decreases n - i,
    {
        let ghost so_far = lines_draws(lines@, *details, i as int, inner, *theme);
        let y: u16 = inner.y + 1 + i;
        draw_line(&mut canvas, &lines[i as usize], details, i as usize, inner, y, &styles);
        proof {
            let here = pieces_draws(
                line_pieces(
                    lines@[i as int],
                    details.words_at(i as int),
                    details.highlights_at(i as int),
                    styles,
                ),
                inner.x as int,
                inner.x + inner.width,
                y as int,
            );
            assert(head + so_far + here =~= head + (so_far + here));
        }
        i = i + 1;
    }
    proof {
        assert(head =~= seq![
            draw::Draw::Text {
                x: inner.x as int,
                y: inner.y as int,
                text: title(file_name@, lines_added(hunks@), lines_removed(hunks@)),
                max: inner.width as int,
                style: theme.popup_info,
            },
        ]);
    }
    canvas
}

// ---------------------------------------------------------------------------------------------
// Testing highlights
// ---------------------------------------------------------------------------------------------

fn is_part_clean(
    s: &str,
    highlights: &Vec<Highlight>,
    base: Style,
    offset: usize,
    whole: bool,
) -> (r: bool)
    ensures
        r == part_is_clean(s@, highlights@, base, offset as int, whole),
{
    if highlights.len() == 0 {
        return true;
    }
    let t = chars_of(s);
    let rs = byte_ranges(highlights, base, offset, byte_length(s), whole);
    let ghost want = ranges_of(rs@);
    let mut i: usize = 0;
    proof {
        assert(want.len() == rs@.len());
    }
    while i < rs.len()
        invariant
            i <= rs@.len(),
            t@ == s@,
            want == ranges_of(rs@),
            want == ranges(
                highlights@,
                base,
                offset as int,
                bytes::byte_len(s@) as int,
                whole,
                0,
            ),
            highlights@.len() > 0,
            forall|k: int|
                0 <= k < i ==> bytes::chars_before(s@, (#[trigger] want[k]).0) is Some
                    && bytes::chars_before(s@, want[k].1) is Some,
        decreases rs@.len() - i,
    {
        let (from, to, style) = rs[i];
        proof {
            assert(want[i as int] == (from as int, to as int, style));
        }
        let a = char_index(&t, from);
        let b = char_index(&t, to);
        if a.is_none() || b.is_none() {
            return false;
        }
        i = i + 1;
    }
    true
}

fn are_words_clean(
    words: &Vec<WordSegment>,
    highlights: &Vec<Highlight>,
    base: Style,
    emph: Style,
) -> (r: bool)
    ensures
        r == words_are_clean(diff_lines::words_of(words@), highlights@, base, emph, 0),
{
    let ghost all = diff_lines::words_of(words@);
    let mut i: usize = 0;
    let mut offset: usize = 0;
    let ghost mut exact: int = 0;
    proof {
        assert(all.skip(0) =~= all);
    }
    while i < words.len()
        invariant
            i <= words@.len(),
            all == diff_lines::words_of(words@),
            exact >= 0,
            offset == draw::least(exact, usize::MAX as int),
            words_are_clean(all.skip(i as int), highlights@, base, emph, exact)
                == words_are_clean(all, highlights@, base, emph, 0),
        decreases words@.len() - i,
    {
        let word = &words[i];
        let style = if word.is_emph {
            emph
        } else {
            base
        };
        proof {
            assert(all[i as int] == diff_lines::word(words@[i as int]));
            assert(all.skip(i as int)[0] == (word.text@, word.is_emph));
            assert(all.skip(i as int).skip(1) =~= all.skip(i + 1));
            if exact >= usize::MAX {
                lemma_ranges_far(
                    highlights@,
                    style,
                    offset as int,
                    exact,
                    bytes::byte_len(word.text@) as int,
                    false,
                    0,
                );
            }
        }
        if !is_part_clean(word.text.as_str(), highlights, style, offset, false) {
            return false;
        }
        proof {
            exact = exact + bytes::byte_len(word.text@);
        }
        offset = offset.saturating_add(byte_length(word.text.as_str()));
        i = i + 1;
    }
    proof {
        assert(all.skip(i as int) =~= Seq::<(Seq<char>, bool)>::empty());
    }
    true
}

fn is_content_clean(
    content: &str,
    words: &Option<Vec<WordSegment>>,
    highlights: &Vec<Highlight>,
    base: Style,
    emph: Style,
) -> (r: bool)
    ensures
        r == content_is_clean(content@, opt_words(*words), highlights@, base, emph),
{
    match words {
        Some(w) => are_words_clean(w, highlights, base, emph),
        None => is_part_clean(content, highlights, base, 0, true),
    }
}

fn is_line_clean(
    line: &DiffLine,
    words: &Option<Vec<WordSegment>>,
    highlights: &Vec<Highlight>,
    styles: &DiffStyles,
) -> (r: bool)
    ensures
        r == line_is_clean(*line, opt_words(*words), highlights@, *styles),
{
    match line {
        DiffLine::HunkHeader { .. } => true,
        DiffLine::Context { content, .. } => is_content_clean(
            content.as_str(),
            &None,
            highlights,
            styles.context,
            styles.context,
        ),
        DiffLine::Deletion { content, .. } => is_content_clean(
            content.as_str(),
            words,
            highlights,
            styles.minus,
            styles.minus_emph,
        ),
        DiffLine::Addition { content, .. } => is_content_clean(
            content.as_str(),
            words,
            highlights,
            styles.plus,
            styles.plus_emph,
        ),
    }
}

/// Whether the highlights separate characters where they cut the lines that are visible in a
/// preview of `height` rows.
pub fn highlights_fit(
    lines: &Vec<DiffLine>,
    details: &LineDetails,
    height: u16,
    theme: &Theme,
) -> (r: bool)
    ensures
        r == details_are_clean(
            lines@,
            *details,
            visible_lines(height as int, lines@.len() as int),
            *theme,
        ),
{
    let styles = diff_styles(theme);
    let rows: usize = height.saturating_sub(1) as usize;
    let no_words: Option<Vec<WordSegment>> = None;
    let no_highlights: Vec<Highlight> = Vec::new();
    let mut i: usize = 0;
    while i < lines.len() && i < rows
        invariant
            i <= lines@.len(),
            i <= rows,
            rows == draw::less(height as int, 1),
            no_words is None,
            no_highlights@.len() == 0,
            styles == self::styles(*theme),
            details_are_clean(lines@, *details, i as int, *theme),
        decreases lines@.len() - i,
    {
        let words = if i < details.words.len() {
            &details.words[i]
        } else {
            &no_words
        };
        let highlights = if i < details.highlights.len() {
            &details.highlights[i]
        } else {
            &no_highlights
        };
        proof {
            assert(opt_words(*words) == details.words_at(i as int));
            assert(highlights@ =~= details.highlights_at(i as int));
        }
        if !is_line_clean(&lines[i], words, highlights, &styles) {
            proof {
                assert(!line_is_clean(
                    lines@[i as int],
                    details.words_at(i as int),
                    details.highlights_at(i as int),
                    styles,
                ));
            }
            return false;
        }
        i = i + 1;
    }
    true
}

// ---------------------------------------------------------------------------------------------
// What the preview of a diff promises
// ---------------------------------------------------------------------------------------------

/// Where the theme gives additions and deletions no background they stand on dark green and dark
/// red, and unchanged lines without a colour are grey; what the theme gives is kept. What changed
/// within a line is bold and underlined.
pub proof fn law_styles_fall_back_to_colours(theme: Theme)
    ensures
        theme.diff_plus.bg is None ==> styles(theme).plus.bg == Some(Color::Rgb(40, 80, 40)),
        theme.diff_plus.bg is Some ==> styles(theme).plus == theme.diff_plus,
        theme.diff_minus.bg is None ==> styles(theme).minus.bg == Some(Color::Rgb(80, 40, 40)),
        theme.diff_minus.bg is Some ==> styles(theme).minus == theme.diff_minus,
        styles(theme).plus.fg == theme.diff_plus.fg,
        styles(theme).minus.fg == theme.diff_minus.fg,
        styles(theme).delta == theme.diff_delta,
        theme.diff_delta.fg is None && theme.diff_delta.bg is None ==> styles(theme).context.fg
            == Some(Color::Rgb(108, 108, 108)),
        theme.diff_delta.fg is Some || theme.diff_delta.bg is Some ==> styles(theme).context
            == theme.diff_delta,
        styles(theme).plus_emph.fg == theme.diff_plus.fg,
        styles(theme).minus_emph.fg == theme.diff_minus.fg,
        styles(theme).plus_emph.add_modifier.bold,
        styles(theme).minus_emph.add_modifier.bold,
        styles(theme).plus_emph.underline_style == Some(UnderlineStyle::Line),
        styles(theme).minus_emph.underline_style == Some(UnderlineStyle::Line),
{
}

/// A highlight gives its colour to the text, and its background only where there was none.
pub proof fn law_highlights_colour_the_text(base: Style, over: Style)
    ensures
        over.fg is Some ==> highlighted(base, over).fg == over.fg,
        over.fg is None ==> highlighted(base, over).fg == base.fg,
        base.bg is Some ==> highlighted(base, over).bg == base.bg,
        base.bg is None ==> highlighted(base, over).bg == over.bg,
{
}

/// The title takes one row; as many lines as there are rows below it are visible.
pub proof fn law_title_takes_one_row(height: int, total: int)
    requires
        0 <= height,
        0 <= total,
    ensures
        height == 0 ==> visible_lines(height, total) == 0,
        0 < height <= total ==> visible_lines(height, total) == height - 1,
        total < height ==> visible_lines(height, total) == total,
{
}

/// The deletions of a hunk are all of its lines that are deletions, from the first to the last.
pub proof fn law_deletions_are_all_of_them(lines: Seq<DiffLine>, from: int, to: int)
    requires
        0 <= from <= to <= lines.len(),
        to <= usize::MAX,
    ensures
        forall|i: int|
            from <= i < to && (#[trigger] lines[i]) is Deletion ==> deletions_in(
                lines,
                from,
                to,
            ).contains(i as usize),
        forall|k: int|
            0 <= k < deletions_in(lines, from, to).len() ==> from <= #[trigger] deletions_in(
                lines,
                from,
                to,
            )[k] < to && lines[deletions_in(lines, from, to)[k] as int] is Deletion,
        forall|j: int, k: int|
            0 <= j < k < deletions_in(lines, from, to).len() ==> #[trigger] deletions_in(
                lines,
                from,
                to,
            )[j] < #[trigger] deletions_in(lines, from, to)[k],
    decreases to - from,
{
    lemma_deletions_in(lines, from, to);
    if from < to {
        law_deletions_are_all_of_them(lines, from, to - 1);
        lemma_deletions_in(lines, from, to - 1);
        let before = deletions_in(lines, from, to - 1);
        let all = deletions_in(lines, from, to);
        assert forall|i: int| from <= i < to && (#[trigger] lines[i]) is Deletion implies
            all.contains(i as usize) by {
            if i < to - 1 {
                assert(before.contains(i as usize));
                let k = choose|k: int| 0 <= k < before.len() && before[k] == i as usize;
                assert(all[k] == before[k]);
            } else {
                assert(all.last() == i as usize);
            }
        }
    }
}

/// The additions of a hunk are all of its lines that are additions, from the first to the last.
pub proof fn law_additions_are_all_of_them(lines: Seq<DiffLine>, from: int, to: int)
    requires
        0 <= from <= to <= lines.len(),
        to <= usize::MAX,
    ensures
        forall|i: int|
            from <= i < to && (#[trigger] lines[i]) is Addition ==> additions_in(
                lines,
                from,
                to,
            ).contains(i as usize),
        forall|k: int|
            0 <= k < additions_in(lines, from, to).len() ==> from <= #[trigger] additions_in(
                lines,
                from,
                to,
            )[k] < to && lines[additions_in(lines, from, to)[k] as int] is Addition,
        forall|j: int, k: int|
            0 <= j < k < additions_in(lines, from, to).len() ==> #[trigger] additions_in(
                lines,
                from,
                to,
            )[j] < #[trigger] additions_in(lines, from, to)[k],
    decreases to - from,
{
    lemma_additions_in(lines, from, to);
    if from < to {
        law_additions_are_all_of_them(lines, from, to - 1);
        lemma_additions_in(lines, from, to - 1);
        let before = additions_in(lines, from, to - 1);
        let all = additions_in(lines, from, to);
        assert forall|i: int| from <= i < to && (#[trigger] lines[i]) is Addition implies
            all.contains(i as usize) by {
            if i < to - 1 {
                assert(before.contains(i as usize));
                let k = choose|k: int| 0 <= k < before.len() && before[k] == i as usize;
                assert(all[k] == before[k]);
            } else {
                assert(all.last() == i as usize);
            }
        }
    }
}

proof fn lemma_visible_pairs(
    deletions: Seq<usize>,
    additions: Seq<usize>,
    n: int,
    visible: int,
)
    requires
        0 <= n <= deletions.len(),
        n <= additions.len(),
        forall|k: int|
            0 <= k < n ==> (#[trigger] deletions[k]) <= visible || additions[k] <= visible,
    ensures
        pairs_of(deletions, additions, n, visible) == Seq::new(
            n as nat,
            |k: int| (deletions[k], additions[k]),
        ),
    decreases n,
{
    let all = Seq::new(n as nat, |k: int| (deletions[k], additions[k]));
    if n > 0 {
        lemma_visible_pairs(deletions, additions, n - 1, visible);
        assert(deletions[n - 1] <= visible || additions[n - 1] <= visible);
        assert(pairs_of(deletions, additions, n, visible) =~= all);
    } else {
        assert(pairs_of(deletions, additions, n, visible) =~= all);
    }
}

/// In a hunk that is in sight the first deletion is compared with the first addition, the second
/// with the second, and so on for as long as there are both. A hunk out of sight has no pairs.
pub proof fn law_changes_are_paired_in_order(
    lines: Seq<DiffLine>,
    hunk: (usize, usize),
    visible: int,
)
    requires
        hunk.0 <= hunk.1 <= lines.len(),
    ensures
        hunk.1 <= visible ==> ({
            let deletions = deletions_in(lines, hunk.0 as int, hunk.1 as int);
            let additions = additions_in(lines, hunk.0 as int, hunk.1 as int);
            let pairs = hunk_pairs(lines, hunk, visible);
            &&& pairs.len() <= deletions.len()
            &&& pairs.len() <= additions.len()
            &&& pairs.len() == deletions.len() || pairs.len() == additions.len()
            &&& forall|k: int|
                0 <= k < pairs.len() ==> #[trigger] pairs[k] == (deletions[k], additions[k])
        }),
        visible < hunk.0 ==> hunk_pairs(lines, hunk, visible).len() == 0,
{
    if hunk.1 <= visible {
        let deletions = deletions_in(lines, hunk.0 as int, hunk.1 as int);
        let additions = additions_in(lines, hunk.0 as int, hunk.1 as int);
        lemma_deletions_in(lines, hunk.0 as int, hunk.1 as int);
        let n = draw::least(deletions.len() as int, additions.len() as int);
        assert forall|k: int| 0 <= k < n implies (#[trigger] deletions[k]) <= visible
            || additions[k] <= visible by {
            assert(deletions[k] < hunk.1);
        }
        lemma_visible_pairs(deletions, additions, n, visible);
    }
}

/// The pairs of a hunk come behind those of the hunks before it.
pub proof fn law_hunks_are_compared_in_order(
    lines: Seq<DiffLine>,
    before: Seq<(usize, usize)>,
    hunk: (usize, usize),
    visible: int,
)
    ensures
        all_pairs(lines, Seq::empty(), visible).len() == 0,
        all_pairs(lines, before.push(hunk), visible) == all_pairs(lines, before, visible)
            + hunk_pairs(lines, hunk, visible),
{
    assert(before.push(hunk).drop_last() =~= before);
}

/// A highlight over a part of the text sets that part apart, and what stands before and behind it
/// keeps its style. Its bytes are counted from the start of the line.
pub proof fn law_highlights_cut_out_their_range(
    a: Seq<char>,
    b: Seq<char>,
    c: Seq<char>,
    from: usize,
    to: usize,
    over: Style,
    base: Style,
    offset: int,
    whole: bool,
)
    requires
        0 <= offset,
        b.len() > 0,
        from == offset + bytes::byte_len(a),
        to == from + bytes::byte_len(b),
    ensures
        part_pieces(a + b + c, seq![(from, to, over)], base, offset, whole) == (if a.len() > 0 {
            seq![(a, base)]
        } else {
            Seq::empty()
        }) + seq![(b, highlighted(base, over))] + (if c.len() > 0 {
            seq![(c, base)]
        } else {
            Seq::empty()
        }),
        part_pieces(a, Seq::empty(), base, offset, whole) == seq![(a, base)],
{
    let s = a + b + c;
    let hs = seq![(from, to, over)];
    let la = bytes::byte_len(a) as int;
    let lb = bytes::byte_len(b) as int;
    let len = bytes::byte_len(s) as int;
    bytes::lemma_byte_len_concat(a + b, c);
    bytes::lemma_byte_len_concat(a, b);
    bytes::lemma_byte_len_bounds(a);
    bytes::lemma_byte_len_bounds(b);
    bytes::lemma_byte_len_bounds(c);
    assert(hs.skip(1) =~= Seq::<Highlight>::empty());
    let rs = ranges(hs, base, offset, len, whole, 0);
    let front = if a.len() > 0 {
        seq![(0int, la, base)]
    } else {
        Seq::empty()
    };
    let back = if c.len() > 0 {
        seq![(la + lb, len, base)]
    } else {
        Seq::empty()
    };
    assert(ranges(hs.skip(1), base, offset, len, whole, la + lb) =~= back);
    let mid = seq![(la, la + lb, highlighted(base, over))];
    assert(rs =~= front + mid + back);
    let n = a.len() as int;
    let m = n + b.len();
    assert(s.take(0) =~= Seq::<char>::empty());
    assert(s.take(n) =~= a);
    assert(s.take(m) =~= a + b);
    assert(s.take(s.len() as int) =~= s);
    bytes::lemma_chars_before_take(s, 0);
    bytes::lemma_chars_before_take(s, n);
    bytes::lemma_chars_before_take(s, m);
    bytes::lemma_chars_before_take(s, s.len() as int);
    bytes::lemma_byte_len_bounds(Seq::<char>::empty());
    assert(between(s, 0, la) =~= a);
    assert(between(s, la, la + lb) =~= b);
    assert(between(s, la + lb, len) =~= c);
    let expected = (if a.len() > 0 {
        seq![(a, base)]
    } else {
        Seq::empty()
    }) + seq![(b, highlighted(base, over))] + (if c.len() > 0 {
        seq![(c, base)]
    } else {
        Seq::empty()
    });
    assert(cut(s, rs) =~= expected);
}

/// In a line that was compared word by word the changed segments are emphasized and the others
/// are not; each starts where the bytes of those before it end.
pub proof fn law_changed_segments_are_emphasized(
    before: Seq<(Seq<char>, bool)>,
    word: Seq<char>,
    highlights: Seq<Highlight>,
    base: Style,
    emph: Style,
    offset: int,
)
    ensures
        word_pieces(before.push((word, true)), highlights, base, emph, offset) == word_pieces(
            before,
            highlights,
            base,
            emph,
            offset,
        ) + part_pieces(
            word,
            highlights,
            emph,
            offset + bytes::byte_len(words_text(before)),
            false,
        ),
        word_pieces(before.push((word, false)), highlights, base, emph, offset) == word_pieces(
            before,
            highlights,
            base,
            emph,
            offset,
        ) + part_pieces(
            word,
            highlights,
            base,
            offset + bytes::byte_len(words_text(before)),
            false,
        ),
    decreases before.len(),
{
    let changed = before.push((word, true));
    let kept = before.push((word, false));
    if before.len() == 0 {
        bytes::lemma_byte_len_bounds(Seq::<char>::empty());
        assert(changed.skip(1) =~= Seq::<(Seq<char>, bool)>::empty());
        assert(kept.skip(1) =~= Seq::<(Seq<char>, bool)>::empty());
        reveal_with_fuel(word_pieces, 2);
        assert(word_pieces(changed, highlights, base, emph, offset) =~= word_pieces(
            before,
            highlights,
            base,
            emph,
            offset,
        ) + part_pieces(word, highlights, emph, offset, false));
        assert(word_pieces(kept, highlights, base, emph, offset) =~= word_pieces(
            before,
            highlights,
            base,
            emph,
            offset,
        ) + part_pieces(word, highlights, base, offset, false));
    } else {
        let more = offset + bytes::byte_len(before[0].0);
        law_changed_segments_are_emphasized(before.skip(1), word, highlights, base, emph, more);
        assert(changed.skip(1) =~= before.skip(1).push((word, true)));
        assert(kept.skip(1) =~= before.skip(1).push((word, false)));
        bytes::lemma_byte_len_concat(before[0].0, words_text(before.skip(1)));
        assert(more + bytes::byte_len(words_text(before.skip(1))) == offset + bytes::byte_len(
            words_text(before),
        ));
        let style = if before[0].1 {
            emph
        } else {
            base
        };
        let first = part_pieces(before[0].0, highlights, style, offset, false);
        let rest = word_pieces(before.skip(1), highlights, base, emph, more);
        let place = offset + bytes::byte_len(words_text(before));
        let last = part_pieces(word, highlights, emph, place, false);
        assert(first + (rest + last) =~= first + rest + last);
        let plain = part_pieces(word, highlights, base, place, false);
        assert(first + (rest + plain) =~= first + rest + plain);
    }
}

/// A line number stands at the right of four columns.
pub proof fn law_numbers_stand_in_four_columns(n: u32)
    ensures
        number_column(None) == seq![' ', ' ', ' ', ' '],
        number::decimal(n as nat).len() <= 4 ==> ({
            let column = number_column(Some(n));
            let digits = number::decimal(n as nat);
            &&& column.len() == 4
            &&& column.skip(4 - digits.len()) == digits
            &&& forall|i: int| 0 <= i < 4 - digits.len() ==> #[trigger] column[i] == ' '
        }),
        number::decimal(n as nat).len() > 4 ==> number_column(Some(n)) == number::decimal(n as nat),
{
    reveal_strlit("    ");
    assert("    "@ =~= seq![' ', ' ', ' ', ' ']);
    let digits = number::decimal(n as nat);
    let column = number_column(Some(n));
    if digits.len() <= 4 {
        assert(column.skip(4 - digits.len()) =~= digits);
    } else {
        assert(column =~= digits);
    }
}

/// A line shows its number, its sign and its text, all in the style of its kind: a deletion the
/// number that it had and a minus, an addition the number that it has and a plus, an unchanged
/// line both numbers, and the head of a hunk its text alone.
pub proof fn law_lines_show_their_number_and_sign(line: DiffLine, styles: DiffStyles)
    ensures
        ({
            let pieces = line_pieces(line, None, Seq::empty(), styles);
            match line {
                DiffLine::HunkHeader { text } => pieces == seq![(text@, styles.delta)],
                DiffLine::Context { base_line, doc_line, content } => pieces == seq![
                    (number_column(base_line), styles.context),
                    (" "@, styles.context),
                    (number_column(doc_line), styles.context),
                    ("  │"@, styles.context),
                    (" "@, styles.context),
                    (content@, styles.context),
                ],
                DiffLine::Deletion { base_line, content } => pieces == seq![
                    ("     "@, styles.minus),
                    (number_column(Some(base_line)), styles.minus),
                    ("-"@, styles.minus),
                    (" │"@, styles.minus),
                    (" "@, styles.minus),
                    (content@, styles.minus),
                ],
                DiffLine::Addition { doc_line, content } => pieces == seq![
                    ("     "@, styles.plus),
                    (number_column(Some(doc_line)), styles.plus),
                    ("+"@, styles.plus),
                    (" │"@, styles.plus),
                    (" "@, styles.plus),
                    (content@, styles.plus),
                ],
            }
        }),
{
}

/// What was compared word by word is shown in its segments, emphasized in the style of the side
/// that the line is on.
pub proof fn law_compared_lines_show_their_segments(
    line: DiffLine,
    words: Seq<(Seq<char>, bool)>,
    highlights: Seq<Highlight>,
    styles: DiffStyles,
)
    requires
        words.len() > 0,
    ensures
        line is Deletion ==> line_pieces(line, Some(words), highlights, styles).skip(5)
            == word_pieces(words, highlights, styles.minus, styles.minus_emph, 0),
        line is Addition ==> line_pieces(line, Some(words), highlights, styles).skip(5)
            == word_pieces(words, highlights, styles.plus, styles.plus_emph, 0),
{
    let pieces = line_pieces(line, Some(words), highlights, styles);
    if line is Deletion {
        assert(pieces.skip(5) =~= word_pieces(
            words,
            highlights,
            styles.minus,
            styles.minus_emph,
            0,
        ));
    }
    if line is Addition {
        assert(pieces.skip(5) =~= word_pieces(words, highlights, styles.plus, styles.plus_emph, 0));
    }
}

/// Pieces stand one behind the other, each as far as there is room; at the right edge nothing more
/// is drawn.
pub proof fn law_pieces_are_drawn_side_by_side(
    text: Seq<char>,
    style: Style,
    rest: Seq<(Seq<char>, Style)>,
    x: int,
    right: int,
    y: int,
)
    requires
        x < right,
        0 < wrap::display_width(text) < 65536,
    ensures
        wrap::display_width(text) <= right - x ==> pieces_draws(
            seq![(text, style)] + rest,
            x,
            right,
            y,
        ) == seq![
            draw::Draw::Text { x, y, text, max: wrap::display_width(text) as int, style },
        ] + pieces_draws(rest, x + wrap::display_width(text), right, y),
        wrap::display_width(text) > right - x ==> pieces_draws(
            seq![(text, style)] + rest,
            x,
            right,
            y,
        ) == seq![draw::Draw::Text { x, y, text, max: right - x, style }],
        pieces_draws(rest, right, right, y).len() == 0,
{
    let all = seq![(text, style)] + rest;
    assert(all.skip(1) =~= rest);
    if wrap::display_width(text) > right - x {
        assert(pieces_draws(rest, x + wrap::advance(text), right, y) =~= Seq::empty());
    }
}

/// A hunk adds as many lines as it has after the change and removes as many as it had before.
pub proof fn law_hunks_add_and_remove_their_lines(hunks: Seq<Hunk>, hunk: Hunk)
    requires
        hunk.before.start <= hunk.before.end,
        hunk.after.start <= hunk.after.end,
    ensures
        lines_added(Seq::empty()) == 0,
        lines_removed(Seq::empty()) == 0,
        lines_added(hunks.push(hunk)) == lines_added(hunks) + hunk.after.end - hunk.after.start,
        lines_removed(hunks.push(hunk)) == lines_removed(hunks) + hunk.before.end
            - hunk.before.start,
{
    assert(hunks.push(hunk).drop_last() =~= hunks);
}

/// The title names the file, the lines added behind a plus and the lines removed behind a minus.
pub proof fn law_title_names_the_file(file: Seq<char>, added: nat, removed: nat)
    ensures
        title(file, added as int, removed as int) == seq![' '] + file + seq![':', ' ', '+']
            + number::decimal(added) + seq![' ', '-'] + number::decimal(removed) + seq![' '],
{
    reveal_strlit(" ");
    reveal_strlit(": +");
    reveal_strlit(" -");
    assert(" "@ =~= seq![' ']);
    assert(": +"@ =~= seq![':', ' ', '+']);
    assert(" -"@ =~= seq![' ', '-']);
}

/// The lines stand one below the other under the title, each with its own segments and highlights
/// and from the left edge of the area to its right.
pub proof fn law_lines_stand_under_the_title(
    lines: Seq<DiffLine>,
    details: LineDetails,
    k: int,
    area: Rect,
    theme: Theme,
)
    requires
        0 <= k,
    ensures
        lines_draws(lines, details, 0, area, theme).len() == 0,
        lines_draws(lines, details, k + 1, area, theme) == lines_draws(
            lines,
            details,
            k,
            area,
            theme,
        ) + pieces_draws(
            line_pieces(
                lines[k],
                details.words_at(k),
                details.highlights_at(k),
                styles(theme),
            ),
            area.x as int,
            area.x + area.width,
            area.y + 1 + k,
        ),
        k < details.highlights@.len() ==> details.highlights_at(k) == details.highlights@[k]@,
        k < details.words@.len() ==> details.words_at(k) == opt_words(details.words@[k]),
{
}

} // verus!
