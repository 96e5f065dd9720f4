//! Unified diffs: reading their hunks and putting the two sides together again.

use vstd::prelude::*;

use crate::lines;
use crate::lines::{split_lines, split_words, trim_start};
use crate::number;
use crate::number::parse_usize;
use crate::text;
use crate::text::{chars_of, extend_str, find_char, find_text, piece, same, starts_with, string_of};

verus! {

broadcast use vstd::string::group_string_axioms;

/// Parsed info from a unified diff hunk header.
#[derive(Debug, Clone, PartialEq, Eq)]
pub struct DiffHunkInfo {
    pub old_start: usize,
    pub old_count: usize,
    pub new_start: usize,
    pub new_count: usize,
    /// Lines in this hunk (context, additions, deletions).
    pub lines: Vec<DiffLineType>,
}

/// Classification of a single line within a unified diff hunk.
#[derive(Debug, Clone, PartialEq, Eq)]
pub enum DiffLineType {
    Context(String),
    Addition(String),
    Deletion(String),
}

/// A line of a hunk with its text as a character sequence.
pub enum HunkLine {
    Context(Seq<char>),
    Addition(Seq<char>),
    Deletion(Seq<char>),
}

/// A hunk with its texts as character sequences.
pub struct HunkInfo {
    pub old_start: int,
    pub old_count: int,
    pub new_start: int,
    pub new_count: int,
    pub lines: Seq<HunkLine>,
}

impl View for DiffLineType {
    type V = HunkLine;

    open spec fn view(&self) -> HunkLine {
        match *self {
            DiffLineType::Context(s) => HunkLine::Context(s@),
            DiffLineType::Addition(s) => HunkLine::Addition(s@),
            DiffLineType::Deletion(s) => HunkLine::Deletion(s@),
        }
    }
}

/// The hunk lines behind a vector.
pub open spec fn hunk_lines(v: Seq<DiffLineType>) -> Seq<HunkLine> {
    v.map_values(|l: DiffLineType| l@)
}

impl View for DiffHunkInfo {
    type V = HunkInfo;

    open spec fn view(&self) -> HunkInfo {
        HunkInfo {
            old_start: self.old_start as int,
            old_count: self.old_count as int,
            new_start: self.new_start as int,
            new_count: self.new_count as int,
            lines: hunk_lines(self.lines@),
        }
    }
}

/// The hunks behind a vector.
pub open spec fn hunk_infos(v: Seq<DiffHunkInfo>) -> Seq<HunkInfo> {
    v.map_values(|h: DiffHunkInfo| h@)
}

// ---------------------------------------------------------------------------------------------
// Headers
// ---------------------------------------------------------------------------------------------

/// What a range `X,Y` or `X` says: where it starts and how long it is, one where that is not said.
pub open spec fn range_spec(s: Seq<char>) -> Option<(usize, usize)> {
    let k = text::first_at(s, ',');
    if k < s.len() {
        match (number::usize_of(s.take(k)), number::usize_of(s.skip(k + 1))) {
            (Some(start), Some(count)) => Some((start, count)),
            _ => None,
        }
    } else {
        match number::usize_of(s) {
            Some(start) => Some((start, 1)),
            None => None,
        }
    }
}

/// What two words of a header say: `-X,Y` and `+A,B`.
pub open spec fn range_pair(ws: Seq<Seq<char>>) -> Option<(usize, usize, usize, usize)> {
    if ws.len() >= 2 && ws[0].len() > 0 && ws[0][0] == '-' && ws[1].len() > 0 && ws[1][0] == '+' {
        match (range_spec(ws[0].skip(1)), range_spec(ws[1].skip(1))) {
            (Some((a, b)), Some((c, d))) => Some((a, b, c, d)),
            _ => None,
        }
    } else {
        None
    }
}

/// What a header `@@ -X,Y +A,B @@` says. Anything may follow it.
pub open spec fn hunk_header(line: Seq<char>) -> Option<(usize, usize, usize, usize)> {
    if text::has_prefix(line, "@@"@) {
        let rest = lines::trim_start_of(line.skip(2));
        match text::first_match(rest, "@@"@) {
            Some(k) => range_pair(lines::words(rest.take(k))),
            None => None,
        }
    } else {
        None
    }
}

/// Parse a range spec like "X,Y" or "X" (implied count=1) into (start, count).
pub fn parse_range_spec(spec: &str) -> (r: Option<(usize, usize)>)
    ensures
        r == range_spec(spec@),
{
    let t = chars_of(spec);
    proof {
        assert(t@.skip(0) =~= t@);
    }
    read_range(&t, 0)
}

fn read_range(t: &Vec<char>, from: usize) -> (r: Option<(usize, usize)>)
    requires
        from <= t@.len(),
    ensures
        r == range_spec(t@.skip(from as int)),
{
    let ghost s = t@.skip(from as int);
    let k = find_char(t, from, ',');
    proof {
        text::lemma_first_at(s, ',');
    }
    if k < t.len() {
        let a = piece(t, from, k);
        let b = piece(t, k + 1, t.len());
        proof {
            assert(a@ =~= s.take(k - from));
            assert(b@ =~= s.skip(k - from + 1));
        }
        match (parse_usize(&a), parse_usize(&b)) {
            (Some(start), Some(count)) => Some((start, count)),
            _ => None,
        }
    } else {
        let a = piece(t, from, k);
        proof {
            assert(a@ =~= s);
        }
        match parse_usize(&a) {
            Some(start) => Some((start, 1)),
            None => None,
        }
    }
}

/// Parse a unified diff `@@ -X,Y +A,B @@` header line into (old_start, old_count, new_start,
/// new_count).
///
/// Handles formats:
/// - `@@ -X,Y +A,B @@`           — standard
/// - `@@ -X +A @@`               — implied count=1
/// - `@@ -X,0 +A,B @@`          — pure addition
/// - `@@ -X,Y +A,0 @@`          — pure deletion
/// - `@@ -X,Y +A,B @@ context`  — with function context after @@
pub fn parse_hunk_header(line: &str) -> (r: Option<(usize, usize, usize, usize)>)
    ensures
        r == hunk_header(line@),
{
    let t = chars_of(line);
    read_header(&t)
}

fn read_header(t: &Vec<char>) -> (r: Option<(usize, usize, usize, usize)>)
    ensures
        r == hunk_header(t@),
{
    proof {
        reveal_strlit("@@");
    }
    if !starts_with(t, "@@") {
        return None;
    }
    let body = piece(t, 2, t.len());
    proof {
        assert(body@ =~= t@.skip(2));
    }
    let rest = trim_start(&body);
    let mark = chars_of("@@");
    proof {
        assert(rest@.skip(0) =~= rest@);
        text::lemma_first_match(rest@, "@@"@);
    }
    let k = match find_text(&rest, 0, &mark) {
        Some(k) => k,
        None => {
            return None;
        },
    };
    let ranges = piece(&rest, 0, k);
    proof {
        assert(ranges@ =~= rest@.take(k as int));
    }
    let ws = split_words(&ranges);
    proof {
        assert(text::texts(ws@).len() == ws@.len());
    }
    if ws.len() < 2 {
        return None;
    }
    proof {
        assert(text::texts(ws@)[0] == ws@[0]@);
        assert(text::texts(ws@)[1] == ws@[1]@);
    }
    if ws[0].len() == 0 || ws[0][0] != '-' || ws[1].len() == 0 || ws[1][0] != '+' {
        return None;
    }
    match (read_range(&ws[0], 1), read_range(&ws[1], 1)) {
        (Some((a, b)), Some((c, d))) => Some((a, b, c, d)),
        _ => None,
    }
}

// ---------------------------------------------------------------------------------------------
// Hunks
// ---------------------------------------------------------------------------------------------

/// Whether the line belongs to the head of a diff and says nothing of its content.
pub open spec fn is_diff_head(line: Seq<char>) -> bool {
    ||| text::has_prefix(line, "diff --git "@)
    ||| text::has_prefix(line, "index "@)
    ||| text::has_prefix(line, "--- "@)
    ||| text::has_prefix(line, "+++ "@)
    ||| text::has_prefix(line, "old mode "@)
    ||| text::has_prefix(line, "new mode "@)
    ||| text::has_prefix(line, "new file mode "@)
    ||| text::has_prefix(line, "deleted file mode "@)
    ||| text::has_prefix(line, "similarity index "@)
    ||| text::has_prefix(line, "rename from "@)
    ||| text::has_prefix(line, "rename to "@)
    ||| text::has_prefix(line, "Binary files "@)
}

/// The note that a file does not end in a line feed.
pub open spec fn no_newline_note() -> Seq<char> {
    "\\ No newline at end of file"@
}

/// What a line of a hunk is: an addition, a deletion or context by its first character. The note on
/// a missing line feed is none of these; any other line is context.
pub open spec fn classified(line: Seq<char>) -> Option<HunkLine> {
    if line.len() > 0 && line[0] == '+' {
        Some(HunkLine::Addition(line.skip(1)))
    } else if line.len() > 0 && line[0] == '-' {
        Some(HunkLine::Deletion(line.skip(1)))
    } else if line.len() > 0 && line[0] == ' ' {
        Some(HunkLine::Context(line.skip(1)))
    } else if line == no_newline_note() {
        None
    } else {
        Some(HunkLine::Context(line))
    }
}

/// The hunk that a header opens, if it can be read.
pub open spec fn opened(line: Seq<char>) -> Option<HunkInfo> {
    match hunk_header(line) {
        Some((a, b, c, d)) => Some(
            HunkInfo {
                old_start: a as int,
                old_count: b as int,
                new_start: c as int,
                new_count: d as int,
                lines: Seq::empty(),
            },
        ),
        None => None,
    }
}

/// A hunk with one more line, if that is one.
pub open spec fn with_line(hunk: HunkInfo, line: Seq<char>) -> HunkInfo {
    match classified(line) {
        Some(l) => HunkInfo { lines: hunk.lines.push(l), ..hunk },
        None => hunk,
    }
}

/// A hunk on its own, if there is one.
pub open spec fn alone(hunk: Option<HunkInfo>) -> Seq<HunkInfo> {
    match hunk {
        Some(h) => seq![h],
        None => Seq::empty(),
    }
}

/// The hunks that the lines give after the open hunk `current`.
pub open spec fn diff_hunks(ls: Seq<Seq<char>>, current: Option<HunkInfo>) -> Seq<HunkInfo>
    decreases ls.len(),
{
    if ls.len() == 0 {
        alone(current)
    } else if is_diff_head(ls[0]) {
        diff_hunks(ls.skip(1), current)
    } else if text::has_prefix(ls[0], "@@"@) {
        alone(current) + diff_hunks(ls.skip(1), opened(ls[0]))
    } else {
        match current {
            Some(h) => diff_hunks(ls.skip(1), Some(with_line(h, ls[0]))),
            None => diff_hunks(ls.skip(1), None),
        }
    }
}

/// The view of an open hunk.
pub open spec fn opt_hunk(o: Option<DiffHunkInfo>) -> Option<HunkInfo> {
    match o {
        Some(h) => Some(h@),
        None => None,
    }
}

fn diff_head(t: &Vec<char>) -> (r: bool)
    ensures
        r == is_diff_head(t@),
{
    starts_with(t, "diff --git ") || starts_with(t, "index ") || starts_with(t, "--- ")
        || starts_with(t, "+++ ") || starts_with(t, "old mode ") || starts_with(t, "new mode ")
        || starts_with(t, "new file mode ") || starts_with(t, "deleted file mode ") || starts_with(
        t,
        "similarity index ",
    ) || starts_with(t, "rename from ") || starts_with(t, "rename to ") || starts_with(
        t,
        "Binary files ",
    )
}

fn tail(t: &Vec<char>) -> (r: String)
    requires
        t@.len() > 0,
    ensures
        r@ == t@.skip(1),
{
    let p = piece(t, 1, t.len());
    proof {
        assert(p@ =~= t@.skip(1));
    }
    string_of(&p)
}

fn classify(t: &Vec<char>) -> (r: Option<DiffLineType>)
    ensures
        match r {
            Some(l) => classified(t@) == Some(l@),
            None => classified(t@) is None,
        },
{
    if t.len() > 0 && t[0] == '+' {
        return Some(DiffLineType::Addition(tail(t)));
    }
    if t.len() > 0 && t[0] == '-' {
        return Some(DiffLineType::Deletion(tail(t)));
    }
    if t.len() > 0 && t[0] == ' ' {
        return Some(DiffLineType::Context(tail(t)));
    }
    let note = chars_of("\\ No newline at end of file");
    if same(t, &note) {
        None
    } else {
        Some(DiffLineType::Context(string_of(t)))
    }
}

fn push_hunk(out: &mut Vec<DiffHunkInfo>, current: Option<DiffHunkInfo>)
    ensures
        hunk_infos(final(out)@) == hunk_infos(old(out)@) + alone(opt_hunk(current)),
{
    let ghost before = hunk_infos(out@);
    match current {
        Some(h) => {
            out.push(h);
            proof {
                assert(hunk_infos(out@) =~= before + seq![h@]);
            }
        },
        None => {
            proof {
                assert(before =~= before + alone(None));
            }
        },
    }
}

fn open_hunk(t: &Vec<char>) -> (r: Option<DiffHunkInfo>)
    ensures
        opt_hunk(r) == opened(t@),
{
    match read_header(t) {
        Some((a, b, c, d)) => {
            let h = DiffHunkInfo {
                old_start: a,
                old_count: b,
                new_start: c,
                new_count: d,
                lines: Vec::new(),
            };
            proof {
                assert(h@.lines =~= Seq::<HunkLine>::empty());
            }
            Some(h)
        },
        None => None,
    }
}

fn add_line(hunk: &mut DiffHunkInfo, t: &Vec<char>)
    ensures
        final(hunk)@ == with_line(old(hunk)@, t@),
{
    let ghost before = hunk@.lines;
    match classify(t) {
        Some(l) => {
            hunk.lines.push(l);
            proof {
                assert(hunk@.lines =~= before.push(l@));
            }
        },
        None => {},
    }
}

/// Parse a unified diff string into a list of `DiffHunkInfo` structs.
///
/// Skips `diff --git`, `index`, `---`, `+++` header lines. For each `@@ -X,Y +A,B @@` line, creates
/// a new hunk and classifies subsequent lines as Context (` `), Addition (`+`), or Deletion (`-`).
pub fn parse_diff_hunks(diff: &str) -> (r: Vec<DiffHunkInfo>)
    ensures
        hunk_infos(r@) == diff_hunks(lines::lines(diff@), None),
{
    let t = chars_of(diff);
    let ls = split_lines(&t);
    let ghost all = lines::lines(diff@);
    let mut out: Vec<DiffHunkInfo> = Vec::new();
    let mut current: Option<DiffHunkInfo> = None;
    let mut i: usize = 0;
    proof {
        assert(all.skip(0) =~= all);
        assert(hunk_infos(out@) + diff_hunks(all, None) =~= diff_hunks(all, None));
    }
    while i < ls.len()
        invariant
            i <= ls@.len(),
            text::texts(ls@) == all,
            hunk_infos(out@) + diff_hunks(all.skip(i as int), opt_hunk(current)) == diff_hunks(
                all,
                None,
            ),
        decreases ls@.len() - i,
    {
        let line = &ls[i];
        proof {
            assert(all[i as int] == line@);
            assert(all.skip(i as int)[0] == line@);
            assert(all.skip(i as int).skip(1) =~= all.skip(i + 1));
        }
        if diff_head(line) {
        } else if starts_with(line, "@@") {
            let ghost done = hunk_infos(out@);
            let ghost closed = alone(opt_hunk(current));
            push_hunk(&mut out, current);
            current = open_hunk(line);
            proof {
                let rest = diff_hunks(all.skip(i + 1), opened(line@));
                assert((done + closed) + rest =~= done + (closed + rest));
            }
        } else {
            match current {
                Some(h) => {
                    let mut hunk = h;
                    add_line(&mut hunk, line);
                    current = Some(hunk);
                },
                None => {
                    current = None;
                },
            }
        }
        i = i + 1;
    }
    proof {
        assert(all.skip(i as int) =~= Seq::<Seq<char>>::empty());
    }
    push_hunk(&mut out, current);
    out
}

// ---------------------------------------------------------------------------------------------
// Both sides
// ---------------------------------------------------------------------------------------------

/// The lines of the old side: context and deletions.
pub open spec fn old_side(ls: Seq<HunkLine>) -> Seq<Seq<char>>
    decreases ls.len(),
{
    if ls.len() == 0 {
        Seq::empty()
    } else {
        match ls.last() {
            HunkLine::Context(s) => old_side(ls.drop_last()).push(s),
            HunkLine::Deletion(s) => old_side(ls.drop_last()).push(s),
            HunkLine::Addition(_) => old_side(ls.drop_last()),
        }
    }
}

/// The lines of the new side: context and additions.
pub open spec fn new_side(ls: Seq<HunkLine>) -> Seq<Seq<char>>
    decreases ls.len(),
{
    if ls.len() == 0 {
        Seq::empty()
    } else {
        match ls.last() {
            HunkLine::Context(s) => new_side(ls.drop_last()).push(s),
            HunkLine::Addition(s) => new_side(ls.drop_last()).push(s),
            HunkLine::Deletion(_) => new_side(ls.drop_last()),
        }
    }
}

/// `n` empty lines, which stand for lines that the diff does not show.
pub open spec fn blanks(n: int) -> Seq<Seq<char>> {
    if n <= 0 {
        Seq::empty()
    } else {
        Seq::new(n as nat, |i: int| Seq::<char>::empty())
    }
}

/// The line of the old file behind the first `n` hunks, counted from one.
pub open spec fn old_position(hunks: Seq<HunkInfo>) -> int {
    if hunks.len() == 0 {
        1
    } else {
        hunks.last().old_start + old_side(hunks.last().lines).len()
    }
}

/// The lines of the old file, as far as the hunks show them. Lines between hunks are empty.
pub open spec fn old_file(hunks: Seq<HunkInfo>) -> Seq<Seq<char>>
    decreases hunks.len(),
{
    if hunks.len() == 0 {
        Seq::empty()
    } else {
        let before = hunks.drop_last();
        old_file(before) + blanks(hunks.last().old_start - old_position(before)) + old_side(
            hunks.last().lines,
        )
    }
}

/// The lines of the new file, as far as the hunks show them. The lines between hunks are those of
/// the old file.
pub open spec fn new_file(hunks: Seq<HunkInfo>) -> Seq<Seq<char>>
    decreases hunks.len(),
{
    if hunks.len() == 0 {
        Seq::empty()
    } else {
        let before = hunks.drop_last();
        new_file(before) + blanks(hunks.last().old_start - old_position(before)) + new_side(
            hunks.last().lines,
        )
    }
}

/// Lines put together to a text, each with a line feed.
pub open spec fn with_line_feeds(ls: Seq<Seq<char>>) -> Seq<char>
    decreases ls.len(),
{
    if ls.len() == 0 {
        Seq::empty()
    } else {
        with_line_feeds(ls.drop_last()) + ls.last().push('\n')
    }
}

/// The two sides of a diff. Of a text that holds no hunk, all is taken as new.
pub open spec fn both_sides(diff: Seq<char>) -> (Seq<char>, Seq<char>) {
    let hunks = diff_hunks(lines::lines(diff), None);
    if hunks.len() == 0 {
        (Seq::empty(), diff)
    } else {
        (with_line_feeds(old_file(hunks)), with_line_feeds(new_file(hunks)))
    }
}

/// Join lines into a single string with newline separators.
/// Produces a trailing newline if there are any lines, matching typical file content.
pub fn join_lines(ls: &Vec<String>) -> (r: String)
    ensures
        r@ == with_line_feeds(text::strings(ls@)),
{
    let ghost all = text::strings(ls@);
    let mut t: Vec<char> = Vec::new();
    let mut i: usize = 0;
    proof {
        assert(all.take(0) =~= Seq::<Seq<char>>::empty());
        assert(t@ =~= Seq::<char>::empty());
    }
    while i < ls.len()
        invariant
            i <= ls@.len(),
            all == text::strings(ls@),
            t@ == with_line_feeds(all.take(i as int)),
        decreases ls@.len() - i,
    {
        let ghost before = t@;
        extend_str(&mut t, ls[i].as_str());
        t.push('\n');
        proof {
            assert(all[i as int] == ls@[i as int]@);
            assert(all.take(i + 1).drop_last() =~= all.take(i as int));
            assert(all.take(i + 1).last() == all[i as int]);
            assert(t@ =~= before + all[i as int].push('\n'));
        }
        i = i + 1;
    }
    proof {
        assert(all.take(i as int) =~= all);
    }
    string_of(&t)
}

fn push_chars(v: &mut Vec<String>, s: &str)
    ensures
        text::strings(final(v)@) == text::strings(old(v)@).push(s@),
{
    let t = chars_of(s);
    let t = string_of(&t);
    proof {
        text::lemma_strings_push(v@, t);
    }
    v.push(t);
}

fn push_blanks(v: &mut Vec<String>, n: u128)
    ensures
        text::strings(final(v)@) == text::strings(old(v)@) + blanks(n as int),
{
    let ghost start = text::strings(v@);
    let mut k: u128 = 0;
    proof {
        assert(start + blanks(0) =~= start);
    }
    while k < n
        invariant
            k <= n,
            text::strings(v@) == start + blanks(k as int),
        decreases n - k,
    {
        let empty = String::new();
        proof {
            text::lemma_strings_push(v@, empty);
            assert(empty@ =~= Seq::<char>::empty());
            assert((start + blanks(k as int)).push(Seq::<char>::empty()) =~= start + blanks(k + 1));
        }
        v.push(empty);
        k = k + 1;
    }
}

/// Appends the two sides of a hunk, and returns how many lines the old side has.
fn push_sides(before: &mut Vec<String>, after: &mut Vec<String>, ls: &Vec<DiffLineType>) -> (r:
    usize)
    ensures
        text::strings(final(before)@) == text::strings(old(before)@) + old_side(hunk_lines(ls@)),
        text::strings(final(after)@) == text::strings(old(after)@) + new_side(hunk_lines(ls@)),
        r == old_side(hunk_lines(ls@)).len(),
{
    let ghost all = hunk_lines(ls@);
    let ghost b0 = text::strings(before@);
    let ghost a0 = text::strings(after@);
    let mut n: usize = 0;
    let mut i: usize = 0;
    proof {
        assert(all.take(0) =~= Seq::<HunkLine>::empty());
        assert(b0 + old_side(all.take(0)) =~= b0);
        assert(a0 + new_side(all.take(0)) =~= a0);
    }
    while i < ls.len()
        invariant
            n <= i <= ls.len(),
            all == hunk_lines(ls@),
            n == old_side(all.take(i as int)).len(),
            text::strings(before@) == b0 + old_side(all.take(i as int)),
            text::strings(after@) == a0 + new_side(all.take(i as int)),
        decreases ls@.len() - i,
    {
        let ghost head = all.take(i as int);
        proof {
            assert(all[i as int] == ls@[i as int]@);
            assert(all.take(i + 1).drop_last() =~= head);
            assert(all.take(i + 1).last() == all[i as int]);
        }
        match &ls[i] {
            DiffLineType::Context(s) => {
                push_chars(before, s.as_str());
                push_chars(after, s.as_str());
                n = n + 1;
                proof {
                    assert((b0 + old_side(head)).push(s@) =~= b0 + old_side(head).push(s@));
                    assert((a0 + new_side(head)).push(s@) =~= a0 + new_side(head).push(s@));
                }
            },
            DiffLineType::Deletion(s) => {
                push_chars(before, s.as_str());
                n = n + 1;
                proof {
                    assert((b0 + old_side(head)).push(s@) =~= b0 + old_side(head).push(s@));
                }
            },
            DiffLineType::Addition(s) => {
                push_chars(after, s.as_str());
                proof {
                    assert((a0 + new_side(head)).push(s@) =~= a0 + new_side(head).push(s@));
                }
            },
        }
        i = i + 1;
    }
    proof {
        assert(all.take(i as int) =~= all);
    }
    n
}

/// Reconstruct before and after file content from a unified diff.
///
/// Returns `(before_content, after_content)` where:
/// - `before_content` is the original file (deletions + context)
/// - `after_content` is the modified file (additions + context)
///
/// Gaps between hunks (lines not covered by any hunk) are treated as identical in both versions.
/// If parsing fails entirely, returns `("", raw_diff)` as fallback.
pub fn reconstruct_from_diff(diff: &str) -> (r: (String, String))
    ensures
        (r.0@, r.1@) == both_sides(diff@),
{
    let hunks = parse_diff_hunks(diff);
    let ghost all = hunk_infos(hunks@);
    proof {
        assert(all.len() == hunks@.len());
    }
    if hunks.len() == 0 {
        let t = chars_of(diff);
        let r = (String::new(), string_of(&t));
        proof {
            assert(r.0@ =~= Seq::<char>::empty());
        }
        return r;
    }
    let mut before: Vec<String> = Vec::new();
    let mut after: Vec<String> = Vec::new();
    let mut position: u128 = 1;
    let mut i: usize = 0;
    proof {
        assert(all.take(0) =~= Seq::<HunkInfo>::empty());
        assert(text::strings(before@) =~= Seq::<Seq<char>>::empty());
        assert(text::strings(after@) =~= Seq::<Seq<char>>::empty());
    }
    while i < hunks.len()
        invariant
            i <= hunks@.len(),
            all == hunk_infos(hunks@),
            position == old_position(all.take(i as int)),
            text::strings(before@) == old_file(all.take(i as int)),
            text::strings(after@) == new_file(all.take(i as int)),
        decreases hunks@.len() - i,
    {
        let hunk = &hunks[i];
        let start: u128 = hunk.old_start as u128;
        let gap: u128 = if start > position {
            start - position
        } else {
            0
        };
        proof {
            assert(all[i as int] == hunk@);
            assert(all.take(i + 1).drop_last() =~= all.take(i as int));
            assert(all.take(i + 1).last() == hunk@);
            assert(blanks(gap as int) == blanks(hunk.old_start - position));
        }
        push_blanks(&mut before, gap);
        push_blanks(&mut after, gap);
        let n = push_sides(&mut before, &mut after, &hunk.lines);
        position = start + n as u128;
        i = i + 1;
    }
    proof {
        assert(all.take(i as int) =~= all);
    }
    (join_lines(&before), join_lines(&after))
}

// ---------------------------------------------------------------------------------------------
// Laws
// ---------------------------------------------------------------------------------------------

/// A range as it is written.
pub open spec fn written_range(start: usize, count: usize) -> Seq<char> {
    number::decimal(start as nat) + seq![','] + number::decimal(count as nat)
}

/// A header as it is written, with what may follow it.
pub open spec fn written_header(old: Seq<char>, new: Seq<char>, rest: Seq<char>) -> Seq<char> {
    seq!['@', '@', ' '] + (seq!['-'] + old) + seq![' '] + (seq!['+'] + new) + seq![' '] + seq![
        '@',
        '@',
    ] + rest
}

/// A written range says what was written: with its count, or without where that is one.
pub proof fn law_range_reads_back(start: usize, count: usize)
    ensures
        range_spec(written_range(start, count)) == Some((start, count)),
        range_spec(number::decimal(start as nat)) == Some((start, 1usize)),
{
    let a = number::decimal(start as nat);
    let b = number::decimal(count as nat);
    number::law_decimal_round_trip(start);
    number::law_decimal_round_trip(count);
    number::lemma_decimal(start as nat);
    let s = written_range(start, count);
    text::lemma_first_at_is(s, ',', a.len() as int);
    assert(s.take(a.len() as int) =~= a);
    assert(s.skip(a.len() as int + 1) =~= b);
    text::lemma_first_at_is(a, ',', a.len() as int);
}

/// Whether the text can stand for a range in a header.
pub open spec fn is_range_word(s: Seq<char>) -> bool {
    forall|i: int| 0 <= i < s.len() ==> !lines::is_white(#[trigger] s[i]) && s[i] != '@'
}

/// A written header is read as its two ranges, whatever follows it.
pub proof fn law_header_reads_back(old: Seq<char>, new: Seq<char>, rest: Seq<char>)
    requires
        is_range_word(old),
        is_range_word(new),
    ensures
        hunk_header(written_header(old, new, rest)) == (match (range_spec(old), range_spec(new)) {
            (Some((a, b)), Some((c, d))) => Some((a, b, c, d)),
            _ => None,
        }),
{
    reveal_strlit("@@");
    let mark = "@@"@;
    let line = written_header(old, new, rest);
    let first = seq!['-'] + old;
    let second = seq!['+'] + new;
    let ranges = first + seq![' '] + second + seq![' '];
    let body = ranges + seq!['@', '@'] + rest;
    assert(line.take(2) =~= mark);
    assert(line.skip(2)[0] == ' ');
    assert(line.skip(2).skip(1) =~= body);
    assert(body[0] == '-');
    assert(lines::trim_start_of(line.skip(2)) == body) by {
        assert(lines::is_white(' '));
        assert(!lines::is_white('-'));
        reveal_with_fuel(lines::trim_start_of, 2);
    }
    let n = ranges.len() as int;
    text::lemma_first_match(body, mark);
    assert(text::first_match(body, mark) == Some(n)) by {
        assert(body.skip(n).take(2) =~= mark);
        match text::first_match(body, mark) {
            Some(k) => {
                if k < n {
                    assert(body.subrange(k, k + 2)[0] == body[k]);
                    assert(body[k] == ranges[k]);
                    assert(ranges[k] != '@') by {
                        if k == 0 {
                        } else if k < first.len() {
                            assert(ranges[k] == old[k - 1]);
                        } else if k == first.len() {
                        } else if k == first.len() + 1 {
                        } else if k < first.len() + 1 + second.len() {
                            assert(ranges[k] == new[k - first.len() - 2]);
                        }
                    }
                }
                if k > n {
                    assert(!text::has_prefix(body.skip(n), mark));
                }
            },
            None => {
                assert(!text::has_prefix(body.skip(n), mark));
            },
        }
    }
    assert(body.take(n) =~= ranges);
    let last = seq![' '];
    let middle = seq![' '] + second + last;
    assert(ranges =~= first + middle);
    assert forall|i: int| 0 <= i < first.len() implies !lines::is_white(#[trigger] first[i]) by {
        if i > 0 {
            assert(first[i] == old[i - 1]);
        }
    }
    assert forall|i: int| 0 <= i < second.len() implies !lines::is_white(#[trigger] second[i]) by {
        if i > 0 {
            assert(second[i] == new[i - 1]);
        }
    }
    lines::lemma_word_then(first, middle);
    assert(middle.skip(1) =~= second + last);
    lines::lemma_word_then(second, last);
    assert(last.skip(1) =~= Seq::<char>::empty());
    assert(lines::words(last) =~= Seq::<Seq<char>>::empty()) by {
        reveal_with_fuel(lines::words, 2);
    }
    let ws = lines::words(ranges);
    assert(ws =~= seq![first, second]);
    assert(first.skip(1) =~= old);
    assert(second.skip(1) =~= new);
}

/// How many lines of a kind there are.
pub open spec fn additions(ls: Seq<HunkLine>) -> int
    decreases ls.len(),
{
    if ls.len() == 0 {
        0
    } else {
        additions(ls.drop_last()) + if ls.last() is Addition {
            1int
        } else {
            0
        }
    }
}

/// How many lines of a kind there are.
pub open spec fn deletions(ls: Seq<HunkLine>) -> int
    decreases ls.len(),
{
    if ls.len() == 0 {
        0
    } else {
        deletions(ls.drop_last()) + if ls.last() is Deletion {
            1int
        } else {
            0
        }
    }
}

/// The new side of a hunk is longer than the old side by its additions and shorter by its
/// deletions.
pub proof fn law_sides_differ_by_changes(ls: Seq<HunkLine>)
    ensures
        new_side(ls).len() == old_side(ls).len() + additions(ls) - deletions(ls),
        old_side(ls).len() == ls.len() - additions(ls),
    decreases ls.len(),
{
    if ls.len() > 0 {
        law_sides_differ_by_changes(ls.drop_last());
    }
}

/// Hunks of context alone leave the file as it is.
pub proof fn law_context_changes_nothing(hunks: Seq<HunkInfo>)
    requires
        forall|i: int, j: int|
            0 <= i < hunks.len() && 0 <= j < hunks[i].lines.len() ==> (
            #[trigger] hunks[i].lines[j]) is Context,
    ensures
        old_file(hunks) == new_file(hunks),
    decreases hunks.len(),
{
    if hunks.len() > 0 {
        let before = hunks.drop_last();
        assert forall|i: int, j: int|
            0 <= i < before.len() && 0 <= j < before[i].lines.len() implies (
        #[trigger] before[i].lines[j]) is Context by {
            assert(hunks[i].lines[j] is Context);
        }
        law_context_changes_nothing(before);
        let ls = hunks.last().lines;
        assert forall|j: int| 0 <= j < ls.len() implies (#[trigger] ls[j]) is Context by {
            assert(hunks[hunks.len() - 1].lines[j] is Context);
        }
        lemma_context_sides(ls);
    }
}

proof fn lemma_context_sides(ls: Seq<HunkLine>)
    requires
        forall|j: int| 0 <= j < ls.len() ==> (#[trigger] ls[j]) is Context,
    ensures
        old_side(ls) == new_side(ls),
    decreases ls.len(),
{
    if ls.len() > 0 {
        assert(ls.last() is Context);
        lemma_context_sides(ls.drop_last());
    }
}

proof fn lemma_lines_of_joined(ls: Seq<Seq<char>>, rest: Seq<char>)
    requires
        forall|i: int| 0 <= i < ls.len() ==> is_line(#[trigger] ls[i]),
    ensures
        lines::lines(with_line_feeds(ls) + rest) == ls + lines::lines(rest),
    decreases ls.len(),
{
    if ls.len() == 0 {
        assert(with_line_feeds(ls) + rest =~= rest);
        assert(ls + lines::lines(rest) =~= lines::lines(rest));
    } else {
        let head = ls.drop_last();
        let last = ls.last();
        let tail = last.push('\n') + rest;
        assert(with_line_feeds(ls) + rest =~= with_line_feeds(head) + tail);
        assert forall|i: int| 0 <= i < head.len() implies is_line(#[trigger] head[i]) by {
            assert(is_line(ls[i]));
        }
        lemma_lines_of_joined(head, tail);
        assert(is_line(ls[ls.len() - 1]));
        text::lemma_first_at_is(tail, '\n', last.len() as int);
        assert(tail.take(last.len() as int) =~= last);
        assert(tail.skip(last.len() as int + 1) =~= rest);
        assert(lines::lines(tail) =~= seq![last] + lines::lines(rest));
        assert(head + (seq![last] + lines::lines(rest)) =~= ls + lines::lines(rest));
    }
}

/// Whether the text is a line as reading lines gives it: without a line feed, and without a
/// carriage return at its end.
pub open spec fn is_line(s: Seq<char>) -> bool {
    &&& forall|i: int| 0 <= i < s.len() ==> s[i] != '\n'
    &&& lines::without_cr(s) == s
}

/// Lines that are joined are read back as they were.
pub proof fn law_joined_lines_read_back(ls: Seq<Seq<char>>)
    requires
        forall|i: int| 0 <= i < ls.len() ==> is_line(#[trigger] ls[i]),
    ensures
        lines::lines(with_line_feeds(ls)) == ls,
{
    let none = Seq::<char>::empty();
    lemma_lines_of_joined(ls, none);
    assert(with_line_feeds(ls) + none =~= with_line_feeds(ls));
    assert(ls + lines::lines(none) =~= ls);
}

/// How many additions the hunks hold.
pub open spec fn all_additions(hunks: Seq<HunkInfo>) -> int
    decreases hunks.len(),
{
    if hunks.len() == 0 {
        0
    } else {
        all_additions(hunks.drop_last()) + additions(hunks.last().lines)
    }
}

/// How many deletions the hunks hold.
pub open spec fn all_deletions(hunks: Seq<HunkInfo>) -> int
    decreases hunks.len(),
{
    if hunks.len() == 0 {
        0
    } else {
        all_deletions(hunks.drop_last()) + deletions(hunks.last().lines)
    }
}

/// How many line feeds a text holds.
pub open spec fn line_feeds(s: Seq<char>) -> int
    decreases s.len(),
{
    if s.len() == 0 {
        0
    } else {
        line_feeds(s.drop_last()) + if s.last() == '\n' {
            1int
        } else {
            0
        }
    }
}

/// Whether the text is empty or ends in a line feed.
pub open spec fn is_ended(s: Seq<char>) -> bool {
    s.len() > 0 ==> s.last() == '\n'
}

spec fn has_no_feed(s: Seq<char>) -> bool {
    forall|i: int| 0 <= i < s.len() ==> s[i] != '\n'
}

spec fn have_no_feed(ls: Seq<Seq<char>>) -> bool {
    forall|i: int| 0 <= i < ls.len() ==> has_no_feed(#[trigger] ls[i])
}

spec fn is_feedless(l: HunkLine) -> bool {
    match l {
        HunkLine::Context(s) => has_no_feed(s),
        HunkLine::Addition(s) => has_no_feed(s),
        HunkLine::Deletion(s) => has_no_feed(s),
    }
}

spec fn is_feedless_hunk(h: HunkInfo) -> bool {
    forall|i: int| 0 <= i < h.lines.len() ==> is_feedless(#[trigger] h.lines[i])
}

spec fn are_feedless(hunks: Seq<HunkInfo>) -> bool {
    forall|i: int| 0 <= i < hunks.len() ==> is_feedless_hunk(#[trigger] hunks[i])
}

proof fn lemma_line_feeds_concat(a: Seq<char>, b: Seq<char>)
    ensures
        line_feeds(a + b) == line_feeds(a) + line_feeds(b),
    decreases b.len(),
{
    if b.len() == 0 {
        assert(a + b =~= a);
    } else {
        assert((a + b).drop_last() =~= a + b.drop_last());
        lemma_line_feeds_concat(a, b.drop_last());
    }
}

proof fn lemma_no_line_feeds(s: Seq<char>)
    requires
        has_no_feed(s),
    ensures
        line_feeds(s) == 0,
    decreases s.len(),
{
    if s.len() > 0 {
        lemma_no_line_feeds(s.drop_last());
    }
}

/// Lines that hold no line feed have one each when they are joined.
proof fn lemma_feeds_of_joined(ls: Seq<Seq<char>>)
    requires
        have_no_feed(ls),
    ensures
        line_feeds(with_line_feeds(ls)) == ls.len(),
        is_ended(with_line_feeds(ls)),
    decreases ls.len(),
{
    if ls.len() > 0 {
        let head = ls.drop_last();
        let last = ls.last();
        assert(have_no_feed(head)) by {
            assert forall|i: int| 0 <= i < head.len() implies has_no_feed(#[trigger] head[i]) by {
                assert(has_no_feed(ls[i]));
            }
        }
        lemma_feeds_of_joined(head);
        assert(has_no_feed(ls[ls.len() - 1]));
        lemma_no_line_feeds(last);
        assert(last.push('\n').drop_last() =~= last);
        lemma_line_feeds_concat(with_line_feeds(head), last.push('\n'));
    }
}

proof fn lemma_lines_have_no_feed(s: Seq<char>)
    ensures
        have_no_feed(lines::lines(s)),
    decreases s.len(),
{
    if s.len() > 0 {
        text::lemma_first_at(s, '\n');
        let k = text::first_at(s, '\n');
        if k < s.len() {
            lemma_lines_have_no_feed(s.skip(k + 1));
            let first = lines::without_cr(s.take(k));
            assert(has_no_feed(first)) by {
                assert forall|i: int| 0 <= i < first.len() implies first[i] != '\n' by {
                    assert(first[i] == s[i]);
                }
            }
        } else {
            assert(has_no_feed(s));
        }
    }
}

proof fn lemma_with_line(h: HunkInfo, line: Seq<char>)
    requires
        is_feedless_hunk(h),
        has_no_feed(line),
    ensures
        is_feedless_hunk(with_line(h, line)),
{
    match classified(line) {
        Some(l) => {
            if line.len() > 0 {
                let rest = line.skip(1);
                assert(has_no_feed(rest)) by {
                    assert forall|i: int| 0 <= i < rest.len() implies rest[i] != '\n' by {
                        assert(rest[i] == line[i + 1]);
                    }
                }
            }
            assert(is_feedless(l));
            let ls = h.lines.push(l);
            assert forall|i: int| 0 <= i < ls.len() implies is_feedless(#[trigger] ls[i]) by {
                if i < h.lines.len() {
                    assert(is_feedless(h.lines[i]));
                }
            }
        },
        None => {},
    }
}

proof fn lemma_hunks_are_feedless(ls: Seq<Seq<char>>, current: Option<HunkInfo>)
    requires
        have_no_feed(ls),
        current matches Some(h) ==> is_feedless_hunk(h),
    ensures
        are_feedless(diff_hunks(ls, current)),
    decreases ls.len(),
{
    if ls.len() > 0 {
        let rest = ls.skip(1);
        assert(have_no_feed(rest)) by {
            assert forall|i: int| 0 <= i < rest.len() implies has_no_feed(#[trigger] rest[i]) by {
                assert(has_no_feed(ls[i + 1]));
            }
        }
        assert(has_no_feed(ls[0]));
        if is_diff_head(ls[0]) {
            lemma_hunks_are_feedless(rest, current);
        } else if text::has_prefix(ls[0], "@@"@) {
            lemma_hunks_are_feedless(rest, opened(ls[0]));
            let a = alone(current);
            let b = diff_hunks(rest, opened(ls[0]));
            assert forall|i: int| 0 <= i < (a + b).len() implies is_feedless_hunk(
                #[trigger] (a + b)[i],
            ) by {
                if i >= a.len() {
                    assert(is_feedless_hunk(b[i - a.len()]));
                }
            }
        } else {
            match current {
                Some(h) => {
                    lemma_with_line(h, ls[0]);
                    lemma_hunks_are_feedless(rest, Some(with_line(h, ls[0])));
                },
                None => {
                    lemma_hunks_are_feedless(rest, None);
                },
            }
        }
    }
}

proof fn lemma_sides_have_no_feed(ls: Seq<HunkLine>)
    requires
        forall|i: int| 0 <= i < ls.len() ==> is_feedless(#[trigger] ls[i]),
    ensures
        have_no_feed(old_side(ls)),
        have_no_feed(new_side(ls)),
    decreases ls.len(),
{
    if ls.len() > 0 {
        assert(is_feedless(ls[ls.len() - 1]));
        let head = ls.drop_last();
        assert forall|i: int| 0 <= i < head.len() implies is_feedless(#[trigger] head[i]) by {
            assert(is_feedless(ls[i]));
        }
        lemma_sides_have_no_feed(head);
    }
}

proof fn lemma_have_no_feed_concat(a: Seq<Seq<char>>, b: Seq<Seq<char>>)
    requires
        have_no_feed(a),
        have_no_feed(b),
    ensures
        have_no_feed(a + b),
{
    assert forall|i: int| 0 <= i < (a + b).len() implies has_no_feed(#[trigger] (a + b)[i]) by {
        if i < a.len() {
            assert(has_no_feed(a[i]));
        } else {
            assert(has_no_feed(b[i - a.len()]));
        }
    }
}

/// The files that hunks show: how their lengths differ, and that no line holds a line feed.
proof fn lemma_files(hunks: Seq<HunkInfo>)
    requires
        are_feedless(hunks),
    ensures
        have_no_feed(old_file(hunks)),
        have_no_feed(new_file(hunks)),
        old_file(hunks).len() - new_file(hunks).len() == all_deletions(hunks) - all_additions(
            hunks,
        ),
    decreases hunks.len(),
{
    if hunks.len() > 0 {
        let before = hunks.drop_last();
        assert(are_feedless(before)) by {
            assert forall|i: int| 0 <= i < before.len() implies is_feedless_hunk(
                #[trigger] before[i],
            ) by {
                assert(is_feedless_hunk(hunks[i]));
            }
        }
        lemma_files(before);
        assert(is_feedless_hunk(hunks[hunks.len() - 1]));
        let ls = hunks.last().lines;
        lemma_sides_have_no_feed(ls);
        law_sides_differ_by_changes(ls);
        let gap = blanks(hunks.last().old_start - old_position(before));
        assert(have_no_feed(gap));
        lemma_have_no_feed_concat(old_file(before), gap);
        lemma_have_no_feed_concat(old_file(before) + gap, old_side(ls));
        lemma_have_no_feed_concat(new_file(before), gap);
        lemma_have_no_feed_concat(new_file(before) + gap, new_side(ls));
    }
}

proof fn lemma_counts(ls: Seq<HunkLine>)
    ensures
        additions(ls) >= 0,
        deletions(ls) >= 0,
        additions(ls) == 0 && deletions(ls) == 0 ==> old_side(ls) == new_side(ls),
    decreases ls.len(),
{
    if ls.len() > 0 {
        lemma_counts(ls.drop_last());
    }
}

proof fn lemma_all_counts(hunks: Seq<HunkInfo>)
    ensures
        all_additions(hunks) >= 0,
        all_deletions(hunks) >= 0,
        all_additions(hunks) == 0 && all_deletions(hunks) == 0 ==> old_file(hunks) == new_file(
            hunks,
        ),
    decreases hunks.len(),
{
    if hunks.len() > 0 {
        lemma_all_counts(hunks.drop_last());
        lemma_counts(hunks.last().lines);
    }
}

/// The two texts that a diff with hunks is read as: each is empty or ends in a line feed, the first
/// has as many more lines than the second as there are more deletions than additions, and where
/// there are neither the two are one and the same.
pub proof fn law_texts_differ_by_changes(diff: Seq<char>)
    requires
        diff_hunks(lines::lines(diff), None).len() > 0,
    ensures
        ({
            let hunks = diff_hunks(lines::lines(diff), None);
            let sides = both_sides(diff);
            &&& line_feeds(sides.0) - line_feeds(sides.1) == all_deletions(hunks) - all_additions(
                hunks,
            )
            &&& is_ended(sides.0)
            &&& is_ended(sides.1)
            &&& all_deletions(hunks) == 0 && all_additions(hunks) == 0 ==> sides.0 == sides.1
        }),
{
    let hunks = diff_hunks(lines::lines(diff), None);
    lemma_lines_have_no_feed(diff);
    lemma_hunks_are_feedless(lines::lines(diff), None);
    lemma_files(hunks);
    lemma_feeds_of_joined(old_file(hunks));
    lemma_feeds_of_joined(new_file(hunks));
    lemma_all_counts(hunks);
}

// ---------------------------------------------------------------------------------------------
// Laws of places
// ---------------------------------------------------------------------------------------------

/// The text of a line of a hunk.
pub open spec fn line_text(l: HunkLine) -> Seq<char> {
    match l {
        HunkLine::Context(s) => s,
        HunkLine::Addition(s) => s,
        HunkLine::Deletion(s) => s,
    }
}

/// The lines of a hunk that stand in the file before the change: all but the additions.
pub open spec fn lines_before(h: HunkInfo) -> Seq<Seq<char>> {
    h.lines.filter(|l: HunkLine| !(l is Addition)).map_values(|l: HunkLine| line_text(l))
}

/// The lines of a hunk that stand in the file after the change: all but the deletions.
pub open spec fn lines_after(h: HunkInfo) -> Seq<Seq<char>> {
    h.lines.filter(|l: HunkLine| !(l is Deletion)).map_values(|l: HunkLine| line_text(l))
}

/// How many lines more the first `k` hunks leave than they found.
pub open spec fn growth(hunks: Seq<HunkInfo>, k: int) -> int
    decreases k,
{
    if k <= 0 {
        0
    } else {
        growth(hunks, k - 1) + lines_after(hunks[k - 1]).len() - lines_before(hunks[k - 1]).len()
    }
}

/// The place in the old file behind the first `k` hunks.
pub open spec fn place_behind(hunks: Seq<HunkInfo>, k: int) -> int {
    if k <= 0 {
        0
    } else {
        hunks[k - 1].old_start - 1 + lines_before(hunks[k - 1]).len()
    }
}

/// Whether the hunks follow each other: each starts where the one before it ends, or later.
pub open spec fn in_order(hunks: Seq<HunkInfo>) -> bool {
    forall|k: int| 0 <= k < hunks.len() ==> place_behind(hunks, k) <= (#[trigger] hunks[k]).old_start - 1
}

/// The two sides of a hunk are its lines without those of the other side.
pub proof fn law_sides_are_the_lines(h: HunkInfo)
    ensures
        old_side(h.lines) == lines_before(h),
        new_side(h.lines) == lines_after(h),
    decreases h.lines.len(),
{
    reveal(Seq::filter);
    if h.lines.len() > 0 {
        let less = HunkInfo { lines: h.lines.drop_last(), ..h };
        law_sides_are_the_lines(less);
        assert(lines_before(h) =~= old_side(h.lines));
        assert(lines_after(h) =~= new_side(h.lines));
    } else {
        assert(lines_before(h) =~= Seq::<Seq<char>>::empty());
        assert(lines_after(h) =~= Seq::<Seq<char>>::empty());
    }
}

proof fn lemma_places_of_part(hunks: Seq<HunkInfo>, n: int, k: int)
    requires
        0 <= k <= n <= hunks.len(),
    ensures
        growth(hunks.take(n), k) == growth(hunks, k),
        place_behind(hunks.take(n), k) == place_behind(hunks, k),
    decreases k,
{
    if k > 0 {
        lemma_places_of_part(hunks, n, k - 1);
    }
}

proof fn lemma_part_in_order(hunks: Seq<HunkInfo>)
    requires
        in_order(hunks),
        hunks.len() > 0,
    ensures
        in_order(hunks.drop_last()),
        hunks.drop_last() == hunks.take(hunks.len() - 1),
{
    let n = hunks.len() - 1;
    let before = hunks.drop_last();
    assert(before =~= hunks.take(n));
    assert forall|k: int| 0 <= k < before.len() implies place_behind(before, k) <= (
    #[trigger] before[k]).old_start - 1 by {
        lemma_places_of_part(hunks, n, k);
        assert(place_behind(hunks, k) <= hunks[k].old_start - 1);
    }
}

/// How the two files are put together at the last hunk, and how long they are.
proof fn lemma_last_hunk(hunks: Seq<HunkInfo>)
    requires
        in_order(hunks),
    ensures
        old_file(hunks).len() == place_behind(hunks, hunks.len() as int),
        new_file(hunks).len() == place_behind(hunks, hunks.len() as int) + growth(
            hunks,
            hunks.len() as int,
        ),
        old_position(hunks) == place_behind(hunks, hunks.len() as int) + 1,
        hunks.len() > 0 ==> ({
            let n = hunks.len() - 1;
            let before = hunks.drop_last();
            let gap = blanks(hunks[n].old_start - 1 - place_behind(hunks, n));
            &&& gap.len() == hunks[n].old_start - 1 - place_behind(hunks, n)
            &&& old_file(hunks) == old_file(before) + gap + lines_before(hunks[n])
            &&& new_file(hunks) == new_file(before) + gap + lines_after(hunks[n])
            &&& old_file(before).len() == place_behind(hunks, n)
            &&& new_file(before).len() == place_behind(hunks, n) + growth(hunks, n)
        }),
    decreases hunks.len(),
{
    if hunks.len() > 0 {
        let n = hunks.len() - 1;
        let before = hunks.drop_last();
        lemma_part_in_order(hunks);
        lemma_last_hunk(before);
        lemma_places_of_part(hunks, n, n);
        law_sides_are_the_lines(hunks[n]);
        assert(place_behind(hunks, n) <= hunks[n].old_start - 1);
    }
}

proof fn lemma_old_place(hunks: Seq<HunkInfo>, k: int, j: int)
    requires
        in_order(hunks),
        0 <= k < hunks.len(),
        0 <= j < lines_before(hunks[k]).len(),
    ensures
        0 <= hunks[k].old_start - 1 + j < old_file(hunks).len(),
        old_file(hunks)[hunks[k].old_start - 1 + j] == lines_before(hunks[k])[j],
    decreases hunks.len(),
{
    let n = hunks.len() - 1;
    lemma_last_hunk(hunks);
    lemma_part_in_order(hunks);
    lemma_place_not_negative(hunks, k);
    if k < n {
        lemma_old_place(hunks.drop_last(), k, j);
    }
}

proof fn lemma_new_place_line(hunks: Seq<HunkInfo>, k: int, j: int)
    requires
        in_order(hunks),
        0 <= k < hunks.len(),
        0 <= j < lines_after(hunks[k]).len(),
    ensures
        0 <= hunks[k].old_start - 1 + growth(hunks, k) + j < new_file(hunks).len(),
        new_file(hunks)[hunks[k].old_start - 1 + growth(hunks, k) + j] == lines_after(hunks[k])[j],
    decreases hunks.len(),
{
    let n = hunks.len() - 1;
    lemma_last_hunk(hunks);
    lemma_part_in_order(hunks);
    if k < n {
        lemma_new_place_line(hunks.drop_last(), k, j);
        lemma_places_of_part(hunks, n, k);
    } else {
        lemma_new_place_not_negative(hunks, n);
        assert(place_behind(hunks, n) <= hunks[n].old_start - 1);
    }
}

proof fn lemma_old_gap(hunks: Seq<HunkInfo>, k: int, i: int)
    requires
        in_order(hunks),
        0 <= k < hunks.len(),
        place_behind(hunks, k) <= i < hunks[k].old_start - 1,
    ensures
        0 <= i < old_file(hunks).len(),
        old_file(hunks)[i].len() == 0,
    decreases hunks.len(),
{
    let n = hunks.len() - 1;
    lemma_last_hunk(hunks);
    lemma_part_in_order(hunks);
    lemma_place_not_negative(hunks, k);
    if k < n {
        lemma_places_of_part(hunks, n, k);
        lemma_old_gap(hunks.drop_last(), k, i);
    }
}

proof fn lemma_new_gap(hunks: Seq<HunkInfo>, k: int, i: int)
    requires
        in_order(hunks),
        0 <= k < hunks.len(),
        place_behind(hunks, k) + growth(hunks, k) <= i < hunks[k].old_start - 1 + growth(hunks, k),
    ensures
        0 <= i < new_file(hunks).len(),
        new_file(hunks)[i].len() == 0,
    decreases hunks.len(),
{
    let n = hunks.len() - 1;
    lemma_last_hunk(hunks);
    lemma_part_in_order(hunks);
    lemma_new_place_not_negative(hunks, k);
    if k < n {
        lemma_places_of_part(hunks, n, k);
        lemma_new_gap(hunks.drop_last(), k, i);
    }
}

proof fn lemma_place_not_negative(hunks: Seq<HunkInfo>, k: int)
    requires
        in_order(hunks),
        0 <= k <= hunks.len(),
    ensures
        place_behind(hunks, k) >= 0,
        k < hunks.len() ==> hunks[k].old_start >= 1,
    decreases k,
{
    if k > 0 {
        lemma_place_not_negative(hunks, k - 1);
        assert(place_behind(hunks, k - 1) <= hunks[k - 1].old_start - 1);
    }
    if k < hunks.len() {
        assert(place_behind(hunks, k) <= hunks[k].old_start - 1);
    }
}

proof fn lemma_new_place_not_negative(hunks: Seq<HunkInfo>, k: int)
    requires
        in_order(hunks),
        0 <= k <= hunks.len(),
    ensures
        0 <= place_behind(hunks, k) + growth(hunks, k),
    decreases k,
{
    if k > 0 {
        lemma_new_place_not_negative(hunks, k - 1);
        assert(place_behind(hunks, k - 1) <= hunks[k - 1].old_start - 1);
    }
}

proof fn lemma_files_are_lines(hunks: Seq<HunkInfo>)
    requires
        forall|k: int, j: int|
            0 <= k < hunks.len() && 0 <= j < hunks[k].lines.len() ==> is_line(
                line_text(#[trigger] hunks[k].lines[j]),
            ),
    ensures
        forall|i: int| 0 <= i < old_file(hunks).len() ==> is_line(#[trigger] old_file(hunks)[i]),
        forall|i: int| 0 <= i < new_file(hunks).len() ==> is_line(#[trigger] new_file(hunks)[i]),
    decreases hunks.len(),
{
    if hunks.len() > 0 {
        let n = hunks.len() - 1;
        let before = hunks.drop_last();
        assert forall|k: int, j: int|
            0 <= k < before.len() && 0 <= j < before[k].lines.len() implies is_line(
            line_text(#[trigger] before[k].lines[j]),
        ) by {
            assert(is_line(line_text(hunks[k].lines[j])));
        }
        lemma_files_are_lines(before);
        let ls = hunks[n].lines;
        assert forall|j: int| 0 <= j < ls.len() implies is_line(line_text(#[trigger] ls[j])) by {
            assert(is_line(line_text(hunks[n].lines[j])));
        }
        lemma_sides_are_lines(ls);
        let gap = blanks(hunks.last().old_start - old_position(before));
        assert forall|i: int| 0 <= i < old_file(hunks).len() implies is_line(
            #[trigger] old_file(hunks)[i],
        ) by {
            let m = old_file(before).len() as int;
            if i < m {
                assert(old_file(hunks)[i] == old_file(before)[i]);
            } else if i < m + gap.len() {
                assert(old_file(hunks)[i] == gap[i - m]);
            } else {
                assert(old_file(hunks)[i] == old_side(ls)[i - m - gap.len()]);
            }
        }
        assert forall|i: int| 0 <= i < new_file(hunks).len() implies is_line(
            #[trigger] new_file(hunks)[i],
        ) by {
            let m = new_file(before).len() as int;
            if i < m {
                assert(new_file(hunks)[i] == new_file(before)[i]);
            } else if i < m + gap.len() {
                assert(new_file(hunks)[i] == gap[i - m]);
            } else {
                assert(new_file(hunks)[i] == new_side(ls)[i - m - gap.len()]);
            }
        }
    }
}

proof fn lemma_sides_are_lines(ls: Seq<HunkLine>)
    requires
        forall|j: int| 0 <= j < ls.len() ==> is_line(line_text(#[trigger] ls[j])),
    ensures
        forall|i: int| 0 <= i < old_side(ls).len() ==> is_line(#[trigger] old_side(ls)[i]),
        forall|i: int| 0 <= i < new_side(ls).len() ==> is_line(#[trigger] new_side(ls)[i]),
    decreases ls.len(),
{
    if ls.len() > 0 {
        assert(is_line(line_text(ls[ls.len() - 1])));
        let head = ls.drop_last();
        assert forall|j: int| 0 <= j < head.len() implies is_line(line_text(#[trigger] head[j])) by {
            assert(is_line(line_text(ls[j])));
        }
        lemma_sides_are_lines(head);
        assert forall|i: int| 0 <= i < old_side(ls).len() implies is_line(
            #[trigger] old_side(ls)[i],
        ) by {
            if i < old_side(head).len() {
                assert(old_side(ls)[i] == old_side(head)[i]);
            }
        }
        assert forall|i: int| 0 <= i < new_side(ls).len() implies is_line(
            #[trigger] new_side(ls)[i],
        ) by {
            if i < new_side(head).len() {
                assert(new_side(ls)[i] == new_side(head)[i]);
            }
        }
    }
}

/// The line numbers in the headers of a diff are the places of the lines in the texts: line `j` of
/// what a hunk shows of the old file stands `j` lines behind the number in its header, the first
/// hunk included, and the lines in between are empty. In the new text each hunk stands at the same
/// place, moved by the lines that the hunks before it added and took.
pub proof fn law_lines_stand_at_their_numbers(diff: Seq<char>)
    requires
        ({
            let hunks = diff_hunks(lines::lines(diff), None);
            &&& hunks.len() > 0
            &&& in_order(hunks)
            &&& forall|k: int, j: int|
                0 <= k < hunks.len() && 0 <= j < hunks[k].lines.len() ==> is_line(
                    line_text(#[trigger] hunks[k].lines[j]),
                )
        }),
    ensures
        ({
            let hunks = diff_hunks(lines::lines(diff), None);
            let old_lines = lines::lines(both_sides(diff).0);
            let new_lines = lines::lines(both_sides(diff).1);
            &&& old_lines.len() == hunks.last().old_start - 1 + lines_before(hunks.last()).len()
            &&& forall|k: int, j: int|
                #![trigger hunks[k], lines_before(hunks[k])[j]]
                0 <= k < hunks.len() && 0 <= j < lines_before(hunks[k]).len()
                    ==> old_lines[hunks[k].old_start - 1 + j] == lines_before(hunks[k])[j]
            &&& forall|k: int, j: int|
                #![trigger hunks[k], lines_after(hunks[k])[j]]
                0 <= k < hunks.len() && 0 <= j < lines_after(hunks[k]).len()
                    ==> new_lines[hunks[k].old_start - 1 + growth(hunks, k) + j] == lines_after(
                    hunks[k],
                )[j]
            &&& forall|k: int, i: int|
                #![trigger hunks[k], old_lines[i]]
                0 <= k < hunks.len() && place_behind(hunks, k) <= i < hunks[k].old_start - 1
                    ==> old_lines[i].len() == 0
            &&& forall|k: int, i: int|
                #![trigger hunks[k], new_lines[i]]
                0 <= k < hunks.len() && place_behind(hunks, k) + growth(hunks, k) <= i
                    < hunks[k].old_start - 1 + growth(hunks, k) ==> new_lines[i].len() == 0
        }),
{
    let hunks = diff_hunks(lines::lines(diff), None);
    lemma_files_are_lines(hunks);
    law_joined_lines_read_back(old_file(hunks));
    law_joined_lines_read_back(new_file(hunks));
    lemma_last_hunk(hunks);
    let old_lines = lines::lines(both_sides(diff).0);
    let new_lines = lines::lines(both_sides(diff).1);
    assert(old_lines == old_file(hunks));
    assert(new_lines == new_file(hunks));
    assert forall|k: int, j: int|
        #![trigger hunks[k], lines_before(hunks[k])[j]]
        0 <= k < hunks.len() && 0 <= j < lines_before(
            hunks[k],
        ).len() implies old_lines[hunks[k].old_start - 1 + j] == lines_before(hunks[k])[j] by {
        lemma_old_place(hunks, k, j);
    }
    assert forall|k: int, j: int|
        #![trigger hunks[k], lines_after(hunks[k])[j]]
        0 <= k < hunks.len() && 0 <= j < lines_after(
            hunks[k],
        ).len() implies new_lines[hunks[k].old_start - 1 + growth(hunks, k) + j] == lines_after(
        hunks[k],
    )[j] by {
        lemma_new_place_line(hunks, k, j);
    }
    assert forall|k: int, i: int|
        #![trigger hunks[k], old_lines[i]]
        0 <= k < hunks.len() && place_behind(hunks, k) <= i < hunks[k].old_start
            - 1 implies old_lines[i].len() == 0 by {
        lemma_old_gap(hunks, k, i);
    }
    assert forall|k: int, i: int|
        #![trigger hunks[k], new_lines[i]]
        0 <= k < hunks.len() && place_behind(hunks, k) + growth(hunks, k) <= i < hunks[k].old_start
            - 1 + growth(hunks, k) implies new_lines[i].len() == 0 by {
        lemma_new_gap(hunks, k, i);
    }
}

/// A line of a hunk as a diff writes it.
pub open spec fn written_hunk_line(l: HunkLine) -> Seq<char> {
    match l {
        HunkLine::Context(s) => seq![' '] + s,
        HunkLine::Addition(s) => seq!['+'] + s,
        HunkLine::Deletion(s) => seq!['-'] + s,
    }
}

/// Whether a diff can say the line: its content does not make it look like the head of a file.
pub open spec fn can_be_said(l: HunkLine) -> bool {
    match l {
        HunkLine::Context(_) => true,
        HunkLine::Addition(s) => !text::has_prefix(s, seq!['+', '+', ' ']),
        HunkLine::Deletion(s) => !text::has_prefix(s, seq!['-', '-', ' ']),
    }
}

/// Whether the hunk's numbers fit and its lines can be said.
pub open spec fn can_be_written(h: HunkInfo) -> bool {
    &&& 0 <= h.old_start <= usize::MAX
    &&& 0 <= h.old_count <= usize::MAX
    &&& 0 <= h.new_start <= usize::MAX
    &&& 0 <= h.new_count <= usize::MAX
    &&& forall|i: int| 0 <= i < h.lines.len() ==> can_be_said(#[trigger] h.lines[i])
}

/// A hunk as a diff writes it: the header, then the lines.
pub open spec fn written_hunk(h: HunkInfo) -> Seq<Seq<char>> {
    seq![
        written_header(
            written_range(h.old_start as usize, h.old_count as usize),
            written_range(h.new_start as usize, h.new_count as usize),
            Seq::empty(),
        ),
    ] + h.lines.map_values(|l: HunkLine| written_hunk_line(l))
}

proof fn lemma_not_prefix(s: Seq<char>, p: Seq<char>, k: int)
    requires
        0 <= k < p.len(),
        k < s.len() ==> s[k] != p[k],
    ensures
        !text::has_prefix(s, p),
{
    if text::has_prefix(s, p) {
        assert(s.take(p.len() as int)[k] == s[k]);
    }
}

proof fn lemma_head_names()
    ensures
        "diff --git "@[0] == 'd',
        "diff --git "@.len() > 0,
        "index "@[0] == 'i',
        "index "@.len() > 0,
        "--- "@ == seq!['-', '-', '-', ' '],
        "+++ "@ == seq!['+', '+', '+', ' '],
        "old mode "@[0] == 'o',
        "old mode "@.len() > 0,
        "new mode "@[0] == 'n',
        "new mode "@.len() > 0,
        "new file mode "@[0] == 'n',
        "new file mode "@.len() > 0,
        "deleted file mode "@[0] == 'd',
        "deleted file mode "@.len() > 0,
        "similarity index "@[0] == 's',
        "similarity index "@.len() > 0,
        "rename from "@[0] == 'r',
        "rename from "@.len() > 0,
        "rename to "@[0] == 'r',
        "rename to "@.len() > 0,
        "Binary files "@[0] == 'B',
        "Binary files "@.len() > 0,
        "@@"@ == seq!['@', '@'],
{
    reveal_strlit("diff --git ");
    reveal_strlit("index ");
    reveal_strlit("--- ");
    reveal_strlit("+++ ");
    reveal_strlit("old mode ");
    reveal_strlit("new mode ");
    reveal_strlit("new file mode ");
    reveal_strlit("deleted file mode ");
    reveal_strlit("similarity index ");
    reveal_strlit("rename from ");
    reveal_strlit("rename to ");
    reveal_strlit("Binary files ");
    reveal_strlit("@@");
}

/// A line that starts with `@`, a blank or one of the two signs is no head of a file, unless it
/// starts with three signs and a blank.
proof fn lemma_no_head(line: Seq<char>)
    requires
        line.len() > 0,
        line[0] == '@' || line[0] == ' ' || line[0] == '+' || line[0] == '-',
        !text::has_prefix(line, seq!['-', '-', '-', ' ']),
        !text::has_prefix(line, seq!['+', '+', '+', ' ']),
    ensures
        !is_diff_head(line),
{
    lemma_head_names();
    lemma_not_prefix(line, "diff --git "@, 0);
    lemma_not_prefix(line, "index "@, 0);
    lemma_not_prefix(line, "old mode "@, 0);
    lemma_not_prefix(line, "new mode "@, 0);
    lemma_not_prefix(line, "new file mode "@, 0);
    lemma_not_prefix(line, "deleted file mode "@, 0);
    lemma_not_prefix(line, "similarity index "@, 0);
    lemma_not_prefix(line, "rename from "@, 0);
    lemma_not_prefix(line, "rename to "@, 0);
    lemma_not_prefix(line, "Binary files "@, 0);
}

proof fn lemma_said_line(l: HunkLine)
    requires
        can_be_said(l),
    ensures
        !is_diff_head(written_hunk_line(l)),
        !text::has_prefix(written_hunk_line(l), "@@"@),
        classified(written_hunk_line(l)) == Some(l),
{
    let line = written_hunk_line(l);
    let s = line_text(l);
    let minus = seq!['-', '-', '-', ' '];
    let plus = seq!['+', '+', '+', ' '];
    lemma_head_names();
    assert(line.skip(1) =~= s);
    lemma_not_prefix(line, "@@"@, 0);
    assert(!text::has_prefix(line, minus)) by {
        if text::has_prefix(line, minus) {
            assert(line.take(4)[0] == '-');
            assert(s.take(3) =~= seq!['-', '-', ' ']) by {
                assert(s[0] == line.take(4)[1] && s[1] == line.take(4)[2] && s[2] == line.take(4)[3]);
            }
        }
    }
    assert(!text::has_prefix(line, plus)) by {
        if text::has_prefix(line, plus) {
            assert(line.take(4)[0] == '+');
            assert(s.take(3) =~= seq!['+', '+', ' ']) by {
                assert(s[0] == line.take(4)[1] && s[1] == line.take(4)[2] && s[2] == line.take(4)[3]);
            }
        }
    }
    lemma_no_head(line);
}

proof fn lemma_said_lines(h: HunkInfo, ls: Seq<HunkLine>, rest: Seq<Seq<char>>)
    requires
        forall|i: int| 0 <= i < ls.len() ==> can_be_said(#[trigger] ls[i]),
    ensures
        diff_hunks(ls.map_values(|l: HunkLine| written_hunk_line(l)) + rest, Some(h)) == diff_hunks(
            rest,
            Some(HunkInfo { lines: h.lines + ls, ..h }),
        ),
    decreases ls.len(),
{
    let said = ls.map_values(|l: HunkLine| written_hunk_line(l));
    if ls.len() == 0 {
        assert(said + rest =~= rest);
        assert(h.lines + ls =~= h.lines);
    } else {
        assert(can_be_said(ls[0]));
        lemma_said_line(ls[0]);
        let more = ls.skip(1);
        assert forall|i: int| 0 <= i < more.len() implies can_be_said(#[trigger] more[i]) by {
            assert(can_be_said(ls[i + 1]));
        }
        assert((said + rest)[0] == written_hunk_line(ls[0]));
        assert((said + rest).skip(1) =~= more.map_values(|l: HunkLine| written_hunk_line(l)) + rest);
        let next = with_line(h, written_hunk_line(ls[0]));
        assert(next == (HunkInfo { lines: h.lines.push(ls[0]), ..h }));
        lemma_said_lines(next, more, rest);
        assert(h.lines.push(ls[0]) + more =~= h.lines + ls);
    }
}

proof fn lemma_written_header(h: HunkInfo)
    requires
        can_be_written(h),
    ensures
        ({
            let header = written_header(
                written_range(h.old_start as usize, h.old_count as usize),
                written_range(h.new_start as usize, h.new_count as usize),
                Seq::empty(),
            );
            &&& !is_diff_head(header)
            &&& text::has_prefix(header, "@@"@)
            &&& opened(header) == Some(HunkInfo { lines: Seq::empty(), ..h })
        }),
{
    lemma_head_names();
    let old_range = written_range(h.old_start as usize, h.old_count as usize);
    let new_range = written_range(h.new_start as usize, h.new_count as usize);
    let header = written_header(old_range, new_range, Seq::empty());
    lemma_range_word(h.old_start as usize, h.old_count as usize);
    lemma_range_word(h.new_start as usize, h.new_count as usize);
    law_header_reads_back(old_range, new_range, Seq::empty());
    law_range_reads_back(h.old_start as usize, h.old_count as usize);
    law_range_reads_back(h.new_start as usize, h.new_count as usize);
    assert(header[0] == '@' && header[1] == '@');
    assert(header.take(2) =~= seq!['@', '@']);
    lemma_not_prefix(header, seq!['-', '-', '-', ' '], 0);
    lemma_not_prefix(header, seq!['+', '+', '+', ' '], 0);
    lemma_no_head(header);
}

/// What a diff writes of a hunk is read back: the numbers of its header, and its lines with the
/// signs that tell what they are. It ends where the next hunk starts or the diff ends.
pub proof fn law_written_hunks_read_back(
    h: HunkInfo,
    rest: Seq<Seq<char>>,
    open: Option<HunkInfo>,
)
    requires
        can_be_written(h),
        rest.len() == 0 || text::has_prefix(rest[0], seq!['@', '@']),
    ensures
        diff_hunks(written_hunk(h) + rest, open) == alone(open) + (seq![h] + diff_hunks(rest, None)),
{
    let said = h.lines.map_values(|l: HunkLine| written_hunk_line(l));
    lemma_written_header(h);
    let all = written_hunk(h) + rest;
    assert(all.skip(1) =~= said + rest);
    let empty = HunkInfo { lines: Seq::empty(), ..h };
    lemma_said_lines(empty, h.lines, rest);
    assert(empty.lines + h.lines =~= h.lines);
    lemma_hunk_ends(h, rest);
}

/// The lines of the head of a file are passed over.
pub proof fn law_heads_are_passed_over(
    rest: Seq<Seq<char>>,
    open: Option<HunkInfo>,
    name: Seq<char>,
)
    ensures
        diff_hunks(seq![seq!['-', '-', '-', ' '] + name] + rest, open) == diff_hunks(rest, open),
        diff_hunks(seq![seq!['+', '+', '+', ' '] + name] + rest, open) == diff_hunks(rest, open),
        diff_hunks(seq!["diff --git "@ + name] + rest, open) == diff_hunks(rest, open),
        diff_hunks(seq!["index "@ + name] + rest, open) == diff_hunks(rest, open),
{
    lemma_head_names();
    let a = seq!['-', '-', '-', ' '] + name;
    let b = seq!['+', '+', '+', ' '] + name;
    let c = "diff --git "@ + name;
    let d = "index "@ + name;
    assert(a.take(4) =~= "--- "@);
    assert(b.take(4) =~= "+++ "@);
    assert(c.take("diff --git "@.len() as int) =~= "diff --git "@);
    assert(d.take("index "@.len() as int) =~= "index "@);
    assert((seq![a] + rest).skip(1) =~= rest);
    assert((seq![b] + rest).skip(1) =~= rest);
    assert((seq![c] + rest).skip(1) =~= rest);
    assert((seq![d] + rest).skip(1) =~= rest);
}

proof fn lemma_hunk_ends(h: HunkInfo, rest: Seq<Seq<char>>)
    requires
        rest.len() == 0 || text::has_prefix(rest[0], seq!['@', '@']),
    ensures
        diff_hunks(rest, Some(h)) == seq![h] + diff_hunks(rest, None),
{
    lemma_head_names();
    if rest.len() == 0 {
        assert(diff_hunks(rest, Some(h)) =~= seq![h] + diff_hunks(rest, None));
    } else {
        assert(rest[0].take(2)[0] == '@');
        lemma_not_prefix(rest[0], seq!['-', '-', '-', ' '], 0);
        lemma_not_prefix(rest[0], seq!['+', '+', '+', ' '], 0);
        lemma_no_head(rest[0]);
        let tail = diff_hunks(rest.skip(1), opened(rest[0]));
        assert(alone(None) + tail =~= tail);
    }
}

proof fn lemma_range_word(start: usize, count: usize)
    ensures
        is_range_word(written_range(start, count)),
{
    let a = number::decimal(start as nat);
    let b = number::decimal(count as nat);
    let s = written_range(start, count);
    number::lemma_decimal(start as nat);
    number::lemma_decimal(count as nat);
    assert forall|i: int| 0 <= i < s.len() implies !lines::is_white(#[trigger] s[i]) && s[i]
        != '@' by {
        if i < a.len() {
            assert(number::is_digit(a[i]));
            assert(s[i] == a[i]);
        } else if i > a.len() {
            assert(number::is_digit(b[i - a.len() - 1]));
            assert(s[i] == b[i - a.len() - 1]);
        }
    }
}

/// The note that a file does not end in a line feed is no line, and an empty line is an empty line
/// of context.
pub proof fn law_notes_are_no_lines(h: HunkInfo, rest: Seq<Seq<char>>)
    ensures
        diff_hunks(seq!["\\ No newline at end of file"@] + rest, Some(h)) == diff_hunks(
            rest,
            Some(h),
        ),
        diff_hunks(seq![Seq::<char>::empty()] + rest, Some(h)) == diff_hunks(
            rest,
            Some(HunkInfo { lines: h.lines.push(HunkLine::Context(Seq::empty())), ..h }),
        ),
{
    reveal_strlit("\\ No newline at end of file");
    let note = "\\ No newline at end of file"@;
    let none = Seq::<char>::empty();
    lemma_head_names();
    lemma_not_prefix(note, "diff --git "@, 0);
    lemma_not_prefix(note, "index "@, 0);
    lemma_not_prefix(note, "--- "@, 0);
    lemma_not_prefix(note, "+++ "@, 0);
    lemma_not_prefix(note, "old mode "@, 0);
    lemma_not_prefix(note, "new mode "@, 0);
    lemma_not_prefix(note, "new file mode "@, 0);
    lemma_not_prefix(note, "deleted file mode "@, 0);
    lemma_not_prefix(note, "similarity index "@, 0);
    lemma_not_prefix(note, "rename from "@, 0);
    lemma_not_prefix(note, "rename to "@, 0);
    lemma_not_prefix(note, "Binary files "@, 0);
    lemma_not_prefix(note, "@@"@, 0);
    assert((seq![note] + rest).skip(1) =~= rest);
    assert((seq![none] + rest).skip(1) =~= rest);
}

/// What else git says of a file before its hunks is passed over too: its modes, where it was
/// renamed from and to, and that it is binary.
pub proof fn law_other_heads_are_passed_over(
    rest: Seq<Seq<char>>,
    open: Option<HunkInfo>,
    name: Seq<char>,
)
    ensures
        diff_hunks(seq!["old mode "@ + name] + rest, open) == diff_hunks(rest, open),
        diff_hunks(seq!["new mode "@ + name] + rest, open) == diff_hunks(rest, open),
        diff_hunks(seq!["new file mode "@ + name] + rest, open) == diff_hunks(rest, open),
        diff_hunks(seq!["deleted file mode "@ + name] + rest, open) == diff_hunks(rest, open),
        diff_hunks(seq!["similarity index "@ + name] + rest, open) == diff_hunks(rest, open),
        diff_hunks(seq!["rename from "@ + name] + rest, open) == diff_hunks(rest, open),
        diff_hunks(seq!["rename to "@ + name] + rest, open) == diff_hunks(rest, open),
        diff_hunks(seq!["Binary files "@ + name] + rest, open) == diff_hunks(rest, open),
{
    lemma_passed_over("old mode "@, name, rest, open);
    lemma_passed_over("new mode "@, name, rest, open);
    lemma_passed_over("new file mode "@, name, rest, open);
    lemma_passed_over("deleted file mode "@, name, rest, open);
    lemma_passed_over("similarity index "@, name, rest, open);
    lemma_passed_over("rename from "@, name, rest, open);
    lemma_passed_over("rename to "@, name, rest, open);
    lemma_passed_over("Binary files "@, name, rest, open);
}

proof fn lemma_passed_over(
    start: Seq<char>,
    name: Seq<char>,
    rest: Seq<Seq<char>>,
    open: Option<HunkInfo>,
)
    requires
        forall|line: Seq<char>| #[trigger]
            text::has_prefix(line, start) ==> is_diff_head(line),
    ensures
        diff_hunks(seq![start + name] + rest, open) == diff_hunks(rest, open),
{
    let line = start + name;
    assert(line.take(start.len() as int) =~= start);
    assert(text::has_prefix(line, start));
    assert((seq![line] + rest).skip(1) =~= rest);
}

proof fn lemma_no_hunks(ls: Seq<Seq<char>>)
    requires
        forall|i: int| 0 <= i < ls.len() ==> !text::has_prefix(#[trigger] ls[i], seq!['@', '@']),
    ensures
        diff_hunks(ls, None).len() == 0,
    decreases ls.len(),
{
    lemma_head_names();
    if ls.len() > 0 {
        let rest = ls.skip(1);
        assert(!text::has_prefix(ls[0], seq!['@', '@']));
        assert forall|i: int| 0 <= i < rest.len() implies !text::has_prefix(
            #[trigger] rest[i],
            seq!['@', '@'],
        ) by {
            assert(rest[i] == ls[i + 1]);
        }
        lemma_no_hunks(rest);
    }
}

/// A text in which no line starts a hunk is a new file as it stands.
pub proof fn law_text_without_hunks_is_new(diff: Seq<char>)
    requires
        forall|i: int|
            0 <= i < lines::lines(diff).len() ==> !text::has_prefix(
                #[trigger] lines::lines(diff)[i],
                seq!['@', '@'],
            ),
    ensures
        both_sides(diff).0.len() == 0,
        both_sides(diff).1 == diff,
{
    lemma_no_hunks(lines::lines(diff));
}

} // verus!
