//! The lines of a diff view.

use vstd::prelude::*;

use crate::ui::draw;
use crate::ui::draw::{Canvas, Style};
use crate::ui::wrap;
use crate::ui::wrap::text_width;

verus! {

broadcast use vstd::string::group_string_axioms;

/// A line of a diff view. Line numbers count from one.
#[derive(Debug, Clone, PartialEq, Eq)]
pub enum DiffLine {
    /// The head of a hunk.
    HunkHeader { text: String },
    /// An unchanged line.
    Context { base_line: Option<u32>, doc_line: Option<u32>, content: String },
    /// A removed line.
    Deletion { base_line: u32, content: String },
    /// An added line.
    Addition { doc_line: u32, content: String },
}

/// A piece of a changed line; `is_emph` marks what changed within the line.
#[derive(Debug, Clone, PartialEq, Eq)]
pub struct WordSegment {
    pub text: String,
    pub is_emph: bool,
}

/// A segment with its text as a character sequence.
pub open spec fn word(s: WordSegment) -> (Seq<char>, bool) {
    (s.text@, s.is_emph)
}

/// The segments behind a vector.
pub open spec fn words_of(v: Seq<WordSegment>) -> Seq<(Seq<char>, bool)> {
    v.map_values(|s: WordSegment| word(s))
}

/// A deletion and the addition behind it that are shown as a change within a line.
#[derive(Debug, Clone, PartialEq, Eq)]
pub struct WordPair {
    /// The index of the deletion.
    pub index: usize,
    /// The deletion in pieces.
    pub old: Vec<WordSegment>,
    /// The addition in pieces.
    pub new: Vec<WordSegment>,
}

/// How many of the lines are additions.
pub open spec fn addition_count(lines: Seq<DiffLine>) -> nat
    decreases lines.len(),
{
    if lines.len() == 0 {
        0
    } else {
        addition_count(lines.drop_last()) + if lines.last() is Addition {
            1nat
        } else {
            0
        }
    }
}

/// How many of the lines are deletions.
pub open spec fn deletion_count(lines: Seq<DiffLine>) -> nat
    decreases lines.len(),
{
    if lines.len() == 0 {
        0
    } else {
        deletion_count(lines.drop_last()) + if lines.last() is Deletion {
            1nat
        } else {
            0
        }
    }
}

/// How many of the lines are additions, and how many deletions.
pub fn count_changes(lines: &Vec<DiffLine>) -> (r: (usize, usize))
    ensures
        r.0 == addition_count(lines@),
        r.1 == deletion_count(lines@),
        r.0 + r.1 <= lines.len(),
{
    let mut additions: usize = 0;
    let mut deletions: usize = 0;
    let mut i: usize = 0;
    proof {
        assert(lines@.take(0) =~= Seq::<DiffLine>::empty());
    }
    while i < lines.len()
        invariant
            additions + deletions <= i <= lines.len(),
            additions == addition_count(lines@.take(i as int)),
            deletions == deletion_count(lines@.take(i as int)),
        decreases lines@.len() - i,
    {
        proof {
            assert(lines@.take(i + 1).drop_last() =~= lines@.take(i as int));
            assert(lines@.take(i + 1).last() == lines@[i as int]);
        }
        match &lines[i] {
            DiffLine::Addition { .. } => {
                additions = additions + 1;
            },
            DiffLine::Deletion { .. } => {
                deletions = deletions + 1;
            },
            _ => {},
        }
        i = i + 1;
    }
    proof {
        assert(lines@.take(i as int) =~= lines@);
    }
    (additions, deletions)
}

/// Whether line `i` is a deletion with an addition right behind it.
pub open spec fn is_candidate(lines: Seq<DiffLine>, i: int) -> bool {
    0 <= i < lines.len() - 1 && lines[i] is Deletion && lines[i + 1] is Addition
}

/// The lines of which a change within the line may be shown: deletions with an addition right
/// behind them.
pub fn pair_candidates(lines: &Vec<DiffLine>) -> (r: Vec<usize>)
    ensures
        forall|k: int| 0 <= k < r@.len() ==> is_candidate(lines@, #[trigger] r@[k] as int),
        forall|k: int, j: int| 0 <= k < j < r@.len() ==> r@[k] < r@[j],
        forall|i: int| #[trigger] is_candidate(lines@, i) ==> r@.contains(i as usize),
{
    let mut out: Vec<usize> = Vec::new();
    let mut i: usize = 0;
    while i < lines.len()
        invariant
            i <= lines.len(),
            forall|k: int| 0 <= k < out@.len() ==> is_candidate(lines@, #[trigger] out@[k] as int),
            forall|k: int| 0 <= k < out@.len() ==> #[trigger] out@[k] < i,
            forall|k: int, j: int| 0 <= k < j < out@.len() ==> out@[k] < out@[j],
            forall|k: int| #[trigger] is_candidate(lines@, k) && k < i ==> out@.contains(k as usize),
        decreases lines@.len() - i,
    {
        let ghost before = out@;
        let follows = i + 1 < lines.len() && match &lines[i + 1] {
            DiffLine::Addition { .. } => true,
            _ => false,
        };
        let removed = match &lines[i] {
            DiffLine::Deletion { .. } => true,
            _ => false,
        };
        if removed && follows {
            out.push(i);
            proof {
                assert(out@[out@.len() - 1] == i);
                assert forall|k: int| #[trigger] is_candidate(lines@, k) && k < i + 1 implies
                    out@.contains(k as usize) by {
                    if k < i {
                        let j = before.index_of(k as usize);
                        assert(before.contains(k as usize));
                        assert(out@[j] == k as usize);
                    }
                }
            }
        }
        i = i + 1;
    }
    out
}

/// The pairs among which line `i` is one side, by the first that names it.
pub open spec fn segments_for(pairs: Seq<WordPair>, i: int) -> Option<Seq<(Seq<char>, bool)>>
    decreases pairs.len(),
{
    if pairs.len() == 0 {
        None
    } else if pairs[0].index == i {
        Some(words_of(pairs[0].old@))
    } else if pairs[0].index + 1 == i {
        Some(words_of(pairs[0].new@))
    } else {
        segments_for(pairs.skip(1), i)
    }
}

/// The pieces of line `i`, where it is one side of a pair.
pub fn find_segments(pairs: &Vec<WordPair>, i: usize) -> (r: Option<&Vec<WordSegment>>)
    ensures
        match r {
            Some(v) => segments_for(pairs@, i as int) == Some(words_of(v@)),
            None => segments_for(pairs@, i as int) is None,
        },
{
    let mut k: usize = 0;
    proof {
        assert(pairs@.skip(0) =~= pairs@);
    }
    while k < pairs.len()
        invariant
            k <= pairs@.len(),
            segments_for(pairs@.skip(k as int), i as int) == segments_for(pairs@, i as int),
        decreases pairs@.len() - k,
    {
        proof {
            assert(pairs@.skip(k as int)[0] == pairs@[k as int]);
            assert(pairs@.skip(k as int).skip(1) =~= pairs@.skip(k + 1));
        }
        if pairs[k].index == i {
            return Some(&pairs[k].old);
        }
        if i > 0 && pairs[k].index == i - 1 {
            return Some(&pairs[k].new);
        }
        k = k + 1;
    }
    proof {
        assert(pairs@.skip(k as int) =~= Seq::<WordPair>::empty());
    }
    None
}

/// The emphasised ones of the segments, drawn at their places from column `x` on up to `right`.
pub open spec fn emphasis_draws(
    segments: Seq<(Seq<char>, bool)>,
    x: int,
    right: int,
    y: int,
    style: Style,
) -> Seq<draw::Draw>
    decreases segments.len(),
{
    if segments.len() == 0 || x >= right {
        Seq::empty()
    } else {
        let (text, is_emph) = segments[0];
        let here = if is_emph {
            seq![draw::Draw::Text { x, y, text, max: right - x, style }]
        } else {
            Seq::empty()
        };
        here + emphasis_draws(segments.skip(1), x + wrap::advance(text), right, y, style)
    }
}

/// Draws the emphasised ones of the segments at their places from column `x` on up to `right`.
pub fn draw_emphasis(
    canvas: &mut Canvas,
    segments: &Vec<WordSegment>,
    x: u32,
    right: u16,
    y: u16,
    style: Style,
)
    requires
        x <= 0x2_0000,
    ensures
        final(canvas)@ == old(canvas)@ + emphasis_draws(
            words_of(segments@),
            x as int,
            right as int,
            y as int,
            style,
        ),
{
    let ghost all = words_of(segments@);
    let ghost want = canvas@ + emphasis_draws(all, x as int, right as int, y as int, style);
    let mut at: u32 = x;
    let mut i: usize = 0;
    proof {
        assert(all.skip(0) =~= all);
    }
    while i < segments.len() && at < right as u32
        invariant
            i <= segments@.len(),
            at <= 0x2_0000,
            all == words_of(segments@),
            canvas@ + emphasis_draws(all.skip(i as int), at as int, right as int, y as int, style)
                == want,
        decreases segments@.len() - i,
    {
        let seg = &segments[i];
        let ghost start = canvas@;
        let w: usize = text_width(seg.text.as_str()) % 65536;
        proof {
            assert(all[i as int] == word(segments@[i as int]));
            assert(all.skip(i as int)[0] == (seg.text@, seg.is_emph));
            assert(all.skip(i as int).skip(1) =~= all.skip(i + 1));
        }
        let ghost rest = emphasis_draws(all.skip(i + 1), at + w, right as int, y as int, style);
        if seg.is_emph {
            canvas.text(at as u16, y, seg.text.as_str(), (right as u32 - at) as usize, style);
            proof {
                let here = draw::Draw::Text {
                    x: at as int,
                    y: y as int,
                    text: seg.text@,
                    max: right - at,
                    style,
                };
                assert(start.push(here) + rest =~= start + (seq![here] + rest));
            }
        } else {
            proof {
                assert(start + (Seq::<draw::Draw>::empty() + rest) =~= start + rest);
            }
        }
        at = at + w as u32;
        i = i + 1;
    }
    proof {
        assert(emphasis_draws(all.skip(i as int), at as int, right as int, y as int, style)
            =~= Seq::<draw::Draw>::empty());
        assert(canvas@ + Seq::<draw::Draw>::empty() =~= canvas@);
    }
}

/// The counts are of the lines of their kind.
pub proof fn law_counts_are_of_their_kind(ls: Seq<DiffLine>)
    ensures
        addition_count(ls) == ls.filter(|l: DiffLine| l is Addition).len(),
        deletion_count(ls) == ls.filter(|l: DiffLine| l is Deletion).len(),
    decreases ls.len(),
{
    reveal(Seq::filter);
    if ls.len() > 0 {
        law_counts_are_of_their_kind(ls.drop_last());
    }
}

/// Of a pair, the deletion is shown by its old pieces and the line behind it by its new ones. A line
/// that no pair names is shown whole.
pub proof fn law_pairs_name_two_lines(pairs: Seq<WordPair>, k: int, i: int)
    requires
        0 <= k < pairs.len(),
        forall|j: int|
            0 <= j < k ==> (#[trigger] pairs[j]).index != i && pairs[j].index + 1 != i,
    ensures
        pairs[k].index == i ==> segments_for(pairs, i) == Some(words_of(pairs[k].old@)),
        pairs[k].index + 1 == i ==> segments_for(pairs, i) == Some(words_of(pairs[k].new@)),
        k == pairs.len() - 1 && pairs[k].index != i && pairs[k].index + 1 != i ==> segments_for(
            pairs,
            i,
        ) is None,
    decreases k,
{
    let rest = pairs.skip(1);
    if k > 0 {
        assert(pairs[0].index != i && pairs[0].index + 1 != i);
        assert forall|j: int| 0 <= j < k - 1 implies (#[trigger] rest[j]).index != i
            && rest[j].index + 1 != i by {
            assert(pairs[j + 1].index != i && pairs[j + 1].index + 1 != i);
        }
        law_pairs_name_two_lines(rest, k - 1, i);
    } else {
        if pairs.len() == 1 {
            assert(rest =~= Seq::<WordPair>::empty());
            assert(segments_for(rest, i) is None);
        }
    }
}

/// The emphasised pieces of a line are drawn where they stand in it: each begins behind the widths of
/// the pieces before it. Other pieces are left as they are.
pub proof fn law_emphasis_stands_in_place(
    piece: Seq<char>,
    is_emph: bool,
    rest: Seq<(Seq<char>, bool)>,
    x: int,
    right: int,
    y: int,
    style: Style,
)
    requires
        x < right,
    ensures
        emphasis_draws(seq![(piece, is_emph)] + rest, x, right, y, style) == (if is_emph {
            seq![draw::Draw::Text { x, y, text: piece, max: right - x, style }]
        } else {
            Seq::empty()
        }) + emphasis_draws(rest, x + wrap::advance(piece), right, y, style),
        emphasis_draws(rest, right, right, y, style).len() == 0,
{
    assert((seq![(piece, is_emph)] + rest).skip(1) =~= rest);
}

/// A change within a line is looked for where an addition comes right behind a deletion, and
/// nowhere else.
pub proof fn law_candidates_are_neighbours(
    before: Seq<DiffLine>,
    a: DiffLine,
    b: DiffLine,
    after: Seq<DiffLine>,
)
    ensures
        is_candidate(before + seq![a, b] + after, before.len() as int) <==> a is Deletion
            && b is Addition,
        !is_candidate(before.push(a), before.len() as int),
        !is_candidate(before, -1),
{
    let all = before + seq![a, b] + after;
    let n = before.len() as int;
    assert(all[n] == a);
    assert(all[n + 1] == b);
}

} // verus!
