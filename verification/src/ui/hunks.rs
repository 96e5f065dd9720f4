//! Which lines of two texts differ.

use vstd::prelude::*;

use std::ops::Range;

use crate::text;
use crate::ui::unified;
use crate::ui::unified::reconstruct_from_diff;

verus! {

broadcast use vstd::string::group_string_axioms;

/// A change: lines of the first text that lines of the second replace, counted from zero.
#[derive(Debug, PartialEq, Eq)]
pub struct Hunk {
    pub before: Range<u32>,
    pub after: Range<u32>,
}

/// The most lines that can be compared.
pub const MAX_LINES: usize = 0x7fff_fffe;

// ---------------------------------------------------------------------------------------------
// Ropes
// ---------------------------------------------------------------------------------------------

/// `ropey::Rope`: a text kept in pieces.
#[verifier::external_type_specification]
#[verifier::external_body]
pub struct ExRope(ropey::Rope);

/// The characters that a rope holds.
pub uninterp spec fn rope_text(rope: ropey::Rope) -> Seq<char>;

/// `ropey::Rope::from_str`: a rope that holds the given text.
#[verifier::external_body]
pub(crate) fn rope_of(content: &str) -> (r: ropey::Rope)
    ensures
        rope_text(r) == content@,
{
    ropey::Rope::from_str(content)
}

/// `ropey::Rope::lines`: the lines of the rope, each with its line feed. What comes behind the
/// last line feed is a line too, even where it is empty.
#[verifier::external_body]
fn rope_lines(rope: &ropey::Rope) -> (r: Vec<String>)
    ensures
        text::strings(r@) == line_pieces(rope_text(*rope)),
{
    rope.lines().map(|line| line.to_string()).collect()
}

/// A text cut behind each line feed.
pub open spec fn line_pieces(s: Seq<char>) -> Seq<Seq<char>>
    decreases s.len(),
    via line_pieces_decreases
{
    let k = text::first_at(s, '\n');
    if k < s.len() {
        seq![s.take(k + 1)] + line_pieces(s.skip(k + 1))
    } else {
        seq![s]
    }
}

#[via_fn]
proof fn line_pieces_decreases(s: Seq<char>) {
    text::lemma_first_at(s, '\n');
}

// ---------------------------------------------------------------------------------------------
// Changes
// ---------------------------------------------------------------------------------------------

/// Whether the changes turn `before` into `after`, from line `b` of the one and line `a` of the
/// other on: they come in order, and between them the lines are the same.
pub open spec fn turns_into(
    before: Seq<Seq<char>>,
    after: Seq<Seq<char>>,
    hunks: Seq<(u32, u32, u32, u32)>,
    b: int,
    a: int,
) -> bool
    decreases hunks.len(),
{
    if hunks.len() == 0 {
        b <= before.len() && a <= after.len() && before.skip(b) == after.skip(a)
    } else {
        let (b0, b1, a0, a1) = hunks[0];
        &&& b <= b0 <= b1 <= before.len()
        &&& a <= a0 <= a1 <= after.len()
        &&& b0 < b1 || a0 < a1
        &&& before.subrange(b, b0 as int) == after.subrange(a, a0 as int)
        &&& turns_into(before, after, hunks.skip(1), b1 as int, a1 as int)
    }
}

/// The changes that `imara_diff::Diff::compute` finds by the histogram algorithm between two lists
/// of lines: where each starts and ends in the first and in the second.
pub uninterp spec fn histogram_hunks(before: Seq<Seq<char>>, after: Seq<Seq<char>>) -> Seq<
    (u32, u32, u32, u32),
>;

/// `imara_diff::Diff::compute` with `Algorithm::Histogram`, and `Diff::hunks`: changes that turn
/// the first list of lines into the second. Between equal lists there are none. Which of the
/// possible changes are chosen is named, not spelled out.
#[verifier::external_body]
fn histogram_diff(before: &Vec<String>, after: &Vec<String>) -> (r: Vec<(u32, u32, u32, u32)>)
    requires
        before@.len() <= MAX_LINES,
        after@.len() <= MAX_LINES,
    ensures
        r@ == histogram_hunks(text::strings(before@), text::strings(after@)),
        turns_into(text::strings(before@), text::strings(after@), r@, 0, 0),
        text::strings(before@) == text::strings(after@) ==> r@.len() == 0,
{
    let mut input: imara_diff::InternedInput<&str> = imara_diff::InternedInput::default();
    input.update_before(before.iter().map(|line| line.as_str()));
    input.update_after(after.iter().map(|line| line.as_str()));
    let diff = imara_diff::Diff::compute(imara_diff::Algorithm::Histogram, &input);
    diff.hunks().map(|h| (h.before.start, h.before.end, h.after.start, h.after.end)).collect()
}

/// The bounds of a change.
pub open spec fn bounds(h: Hunk) -> (u32, u32, u32, u32) {
    (h.before.start, h.before.end, h.after.start, h.after.end)
}

/// The bounds of the changes behind a vector.
pub open spec fn all_bounds(v: Seq<Hunk>) -> Seq<(u32, u32, u32, u32)> {
    v.map_values(|h: Hunk| bounds(h))
}

/// Changes with their bounds as ranges.
pub fn hunks_from_bounds(v: &Vec<(u32, u32, u32, u32)>) -> (r: Vec<Hunk>)
    ensures
        all_bounds(r@) == v@,
{
    let mut out: Vec<Hunk> = Vec::new();
    let mut i: usize = 0;
    while i < v.len()
        invariant
            i <= v@.len(),
            all_bounds(out@) == v@.take(i as int),
        decreases v@.len() - i,
    {
        let (b0, b1, a0, a1) = v[i];
        let h = Hunk { before: Range { start: b0, end: b1 }, after: Range { start: a0, end: a1 } };
        let ghost done = out@;
        out.push(h);
        proof {
            assert(all_bounds(out@) =~= all_bounds(done).push(bounds(h)));
            assert(v@.take(i + 1) =~= v@.take(i as int).push(v@[i as int]));
        }
        i = i + 1;
    }
    proof {
        assert(v@.take(i as int) =~= v@);
    }
    out
}

/// Whether two texts are short enough to be compared.
pub open spec fn comparable(before: Seq<char>, after: Seq<char>) -> bool {
    line_pieces(before).len() <= MAX_LINES && line_pieces(after).len() <= MAX_LINES
}

/// Compute diff hunks between two `Rope` contents using `imara_diff`.
pub fn compute_hunks(before: &ropey::Rope, after: &ropey::Rope) -> (r: Vec<Hunk>)
    requires
        comparable(rope_text(*before), rope_text(*after)),
    ensures
        all_bounds(r@) == histogram_hunks(
            line_pieces(rope_text(*before)),
            line_pieces(rope_text(*after)),
        ),
        turns_into(
            line_pieces(rope_text(*before)),
            line_pieces(rope_text(*after)),
            all_bounds(r@),
            0,
            0,
        ),
        rope_text(*before) == rope_text(*after) ==> r@.len() == 0,
{
    let old_lines = rope_lines(before);
    let new_lines = rope_lines(after);
    proof {
        assert(text::strings(old_lines@).len() == old_lines@.len());
        assert(text::strings(new_lines@).len() == new_lines@.len());
    }
    let found = histogram_diff(&old_lines, &new_lines);
    let r = hunks_from_bounds(&found);
    proof {
        assert(all_bounds(r@).len() == r@.len());
    }
    r
}

/// Compute diff hunks where the texts can be compared.
pub fn try_compute_hunks(before: &ropey::Rope, after: &ropey::Rope) -> (r: Option<Vec<Hunk>>)
    ensures
        r is Some <==> comparable(rope_text(*before), rope_text(*after)),
        r matches Some(v) ==> {
            let old_lines = line_pieces(rope_text(*before));
            let new_lines = line_pieces(rope_text(*after));
            &&& all_bounds(v@) == histogram_hunks(old_lines, new_lines)
            &&& turns_into(old_lines, new_lines, all_bounds(v@), 0, 0)
            &&& rope_text(*before) == rope_text(*after) ==> v@.len() == 0
        },
{
    let old_lines = rope_lines(before);
    let new_lines = rope_lines(after);
    proof {
        assert(text::strings(old_lines@).len() == old_lines@.len());
        assert(text::strings(new_lines@).len() == new_lines@.len());
    }
    if old_lines.len() <= MAX_LINES && new_lines.len() <= MAX_LINES {
        Some(compute_hunks(before, after))
    } else {
        None
    }
}

/// End-to-end helper: parse a unified diff string and compute the hunks between its two sides.
///
/// 1. Reconstructs before/after content from the diff text
/// 2. Computes hunks via `imara_diff`
///
/// Returns `(before_rope, after_rope, hunks)`.
pub fn parse_and_compute_hunks(diff: &str) -> (r: (ropey::Rope, ropey::Rope, Vec<Hunk>))
    requires
        comparable(unified::both_sides(diff@).0, unified::both_sides(diff@).1),
    ensures
        (rope_text(r.0), rope_text(r.1)) == unified::both_sides(diff@),
        all_bounds(r.2@) == histogram_hunks(
            line_pieces(unified::both_sides(diff@).0),
            line_pieces(unified::both_sides(diff@).1),
        ),
        turns_into(
            line_pieces(unified::both_sides(diff@).0),
            line_pieces(unified::both_sides(diff@).1),
            all_bounds(r.2@),
            0,
            0,
        ),
        unified::both_sides(diff@).0 == unified::both_sides(diff@).1 ==> r.2@.len() == 0,
{
    let (before_text, after_text) = reconstruct_from_diff(diff);
    let before_rope = rope_of(before_text.as_str());
    let after_rope = rope_of(after_text.as_str());
    let hunks = compute_hunks(&before_rope, &after_rope);
    (before_rope, after_rope, hunks)
}

/// Parse a unified diff string and compute its hunks, where its two sides can be compared.
pub fn try_parse_and_compute_hunks(diff: &str) -> (r: Option<(ropey::Rope, ropey::Rope, Vec<Hunk>)>)
    ensures
        r is Some <==> comparable(unified::both_sides(diff@).0, unified::both_sides(diff@).1),
        r matches Some(found) ==> {
            let sides = unified::both_sides(diff@);
            let old_lines = line_pieces(sides.0);
            let new_lines = line_pieces(sides.1);
            &&& (rope_text(found.0), rope_text(found.1)) == sides
            &&& all_bounds(found.2@) == histogram_hunks(old_lines, new_lines)
            &&& turns_into(old_lines, new_lines, all_bounds(found.2@), 0, 0)
            &&& sides.0 == sides.1 ==> found.2@.len() == 0
        },
{
    let (before_text, after_text) = reconstruct_from_diff(diff);
    let before_rope = rope_of(before_text.as_str());
    let after_rope = rope_of(after_text.as_str());
    match try_compute_hunks(&before_rope, &after_rope) {
        Some(hunks) => Some((before_rope, after_rope, hunks)),
        None => None,
    }
}

/// `before` from line `b` on with each change made.
pub open spec fn changed(
    before: Seq<Seq<char>>,
    after: Seq<Seq<char>>,
    hunks: Seq<(u32, u32, u32, u32)>,
    b: int,
) -> Seq<Seq<char>>
    decreases hunks.len(),
{
    if hunks.len() == 0 {
        before.skip(b)
    } else {
        let (b0, b1, a0, a1) = hunks[0];
        before.subrange(b, b0 as int) + after.subrange(a0 as int, a1 as int) + changed(
            before,
            after,
            hunks.skip(1),
            b1 as int,
        )
    }
}

/// Making the changes turns the first list of lines into the second.
pub proof fn law_changes_lead_to_the_second_text(
    before: Seq<Seq<char>>,
    after: Seq<Seq<char>>,
    hunks: Seq<(u32, u32, u32, u32)>,
    b: int,
    a: int,
)
    requires
        0 <= b,
        0 <= a,
        turns_into(before, after, hunks, b, a),
    ensures
        changed(before, after, hunks, b) == after.skip(a),
    decreases hunks.len(),
{
    if hunks.len() > 0 {
        let (b0, b1, a0, a1) = hunks[0];
        law_changes_lead_to_the_second_text(before, after, hunks.skip(1), b1 as int, a1 as int);
        assert(after.skip(a) =~= after.subrange(a, a0 as int) + after.subrange(a0 as int, a1 as int)
            + after.skip(a1 as int));
    }
}

/// A text is cut behind each line feed and nowhere else; the pieces are the text again. What comes
/// behind the last line feed is a piece too.
pub proof fn law_texts_are_cut_behind_line_feeds(line: Seq<char>, rest: Seq<char>)
    requires
        forall|i: int| 0 <= i < line.len() ==> line[i] != '\n',
    ensures
        line_pieces(line + seq!['\n'] + rest) == seq![line + seq!['\n']] + line_pieces(rest),
        line_pieces(line) == seq![line],
        line_pieces(rest).flatten() == rest,
    decreases rest.len(),
{
    let s = line + seq!['\n'] + rest;
    let n = line.len() as int;
    text::lemma_first_at_is(s, '\n', n);
    assert(s.take(n + 1) =~= line + seq!['\n']);
    assert(s.skip(n + 1) =~= rest);
    text::lemma_first_at_is(line, '\n', n);
    text::lemma_first_at(rest, '\n');
    let k = text::first_at(rest, '\n');
    let pieces = line_pieces(rest);
    if k < rest.len() {
        law_texts_are_cut_behind_line_feeds(line, rest.skip(k + 1));
        assert(pieces.first() == rest.take(k + 1));
        assert(pieces.drop_first() =~= line_pieces(rest.skip(k + 1)));
        assert(pieces.flatten() =~= rest.take(k + 1) + rest.skip(k + 1));
        assert(rest.take(k + 1) + rest.skip(k + 1) =~= rest);
    } else {
        assert(pieces.first() == rest);
        let none = Seq::<Seq<char>>::empty();
        assert(pieces.drop_first() =~= none);
        assert(none.flatten() =~= Seq::<char>::empty());
        assert(pieces.flatten() =~= rest + none.flatten());
    }
}

/// The bounds of a change are the lines that it takes of the first text and those that it gives of
/// the second.
pub proof fn law_bounds_are_the_ranges(h: Hunk, v: Seq<Hunk>, i: int)
    requires
        0 <= i < v.len(),
    ensures
        bounds(h).0 == h.before.start,
        bounds(h).1 == h.before.end,
        bounds(h).2 == h.after.start,
        bounds(h).3 == h.after.end,
        all_bounds(v).len() == v.len(),
        all_bounds(v)[i] == bounds(v[i]),
{
}

/// Texts are compared as long as the number of lines of either fits in thirty-one bits, with one to
/// spare.
pub proof fn law_texts_are_compared_up_to_a_size(before: Seq<char>, after: Seq<char>)
    ensures
        comparable(before, after) <==> line_pieces(before).len() < 0x7fff_ffff && line_pieces(
            after,
        ).len() < 0x7fff_ffff,
{
}

} // verus!
