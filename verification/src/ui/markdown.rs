//! Inline formatting of chat messages.

use vstd::prelude::*;

use crate::lines;
use crate::lines::trim_start;
use crate::text;
use crate::text::{chars_of, find_char, find_text, piece, starts_with, string_of};
use crate::ui::draw::Style;

verus! {

broadcast use vstd::string::group_string_axioms;

/// A piece of text in one style.
pub type Segment = (String, Style);

/// A segment with its text as a character sequence.
pub open spec fn segment(s: Segment) -> (Seq<char>, Style) {
    (s.0@, s.1)
}

/// The segments behind a vector.
pub open spec fn segments(v: Seq<Segment>) -> Seq<(Seq<char>, Style)> {
    v.map_values(|s: Segment| segment(s))
}

/// The styles that formatting chooses from.
#[derive(Debug, Clone, Copy, PartialEq, Eq, Structural)]
pub struct Palette {
    pub base: Style,
    pub code: Style,
    pub bold: Style,
    pub inline_code: Style,
}

/// Plain text as a segment, or nothing where there is none.
pub open spec fn flushed(plain: Seq<char>, p: Palette) -> Seq<(Seq<char>, Style)> {
    if plain.len() == 0 {
        Seq::empty()
    } else {
        seq![(plain, p.base)]
    }
}

/// The segments of `s` after the plain text `plain`, with `` `code` `` and `**bold**` set apart. A
/// marker without its partner is plain text, and so is what it opens.
pub open spec fn inline_segments(s: Seq<char>, plain: Seq<char>, p: Palette) -> Seq<
    (Seq<char>, Style),
>
    decreases s.len(),
    via inline_decreases
{
    if s.len() == 0 {
        flushed(plain, p)
    } else if s[0] == '`' {
        let rest = s.skip(1);
        let k = text::first_at(rest, '`');
        if k >= rest.len() {
            flushed(plain, p) + flushed(s, p)
        } else if k > 0 {
            flushed(plain, p) + seq![(rest.take(k), p.inline_code)] + inline_segments(
                rest.skip(k + 1),
                Seq::empty(),
                p,
            )
        } else {
            flushed(plain, p) + inline_segments(rest.skip(1), seq!['`'], p)
        }
    } else if text::has_prefix(s, seq!['*', '*']) {
        let rest = s.skip(2);
        match text::first_match(rest, seq!['*', '*']) {
            None => flushed(plain, p) + flushed(s, p),
            Some(k) => if k > 0 {
                flushed(plain, p) + seq![(rest.take(k), p.bold)] + inline_segments(
                    rest.skip(k + 2),
                    Seq::empty(),
                    p,
                )
            } else {
                flushed(plain, p) + inline_segments(rest.skip(2), seq!['*', '*'], p)
            },
        }
    } else {
        inline_segments(s.skip(1), plain.push(s[0]), p)
    }
}

#[via_fn]
proof fn inline_decreases(s: Seq<char>, plain: Seq<char>, p: Palette) {
    if s.len() > 0 {
        text::lemma_first_at(s.skip(1), '`');
        if text::has_prefix(s, seq!['*', '*']) {
            text::lemma_first_match(s.skip(2), seq!['*', '*']);
        }
    }
}

/// `s` without the `#` characters at its start.
pub open spec fn without_hashes(s: Seq<char>) -> Seq<char>
    decreases s.len(),
{
    if s.len() > 0 && s[0] == '#' {
        without_hashes(s.skip(1))
    } else {
        s
    }
}

/// Whether the line opens or closes a fenced code block.
pub open spec fn is_fence(line: Seq<char>) -> bool {
    text::has_prefix(lines::trim_start_of(line), "```"@)
}

/// Whether the line is a header.
pub open spec fn is_heading(line: Seq<char>) -> bool {
    text::has_prefix(line, "# "@) || text::has_prefix(line, "## "@) || text::has_prefix(
        line,
        "### "@,
    )
}

/// The bullet that stands for the list marker at the start of the line, and the length of the
/// marker.
pub open spec fn bullet(line: Seq<char>) -> (Seq<char>, int) {
    if text::has_prefix(line, "- "@) || text::has_prefix(line, "* "@) {
        ("  • "@, 2)
    } else if text::has_prefix(line, "  - "@) || text::has_prefix(line, "  * "@) {
        ("    ◦ "@, 4)
    } else {
        (Seq::empty(), 0)
    }
}

/// The segments of a line that starts inside a fenced code block or outside of one.
pub open spec fn markdown(line: Seq<char>, in_code_block: bool, p: Palette) -> Seq<
    (Seq<char>, Style),
> {
    if in_code_block || is_fence(line) {
        seq![(line, p.code)]
    } else if is_heading(line) {
        seq![(lines::trim_start_of(without_hashes(line)), p.bold)]
    } else {
        let (mark, n) = bullet(line);
        let all = flushed(mark, p) + inline_segments(line.skip(n), Seq::empty(), p);
        if all.len() == 0 {
            seq![(Seq::empty(), p.base)]
        } else {
            all
        }
    }
}

/// Whether the next line starts inside a fenced code block.
pub open spec fn stays_in_code(line: Seq<char>, in_code_block: bool) -> bool {
    in_code_block != is_fence(line)
}

/// A backtick that nothing closes is plain text, and so is all that follows it.
pub proof fn law_unclosed_backtick_is_plain(s: Seq<char>, plain: Seq<char>, p: Palette)
    requires
        s.len() > 0,
        s[0] == '`',
        forall|i: int| 1 <= i < s.len() ==> s[i] != '`',
    ensures
        inline_segments(s, plain, p) == flushed(plain, p) + seq![(s, p.base)],
{
    text::lemma_first_at(s.skip(1), '`');
    let k = text::first_at(s.skip(1), '`');
    if k < s.skip(1).len() {
        assert(s.skip(1)[k] == s[k + 1]);
    }
}

/// A bold marker that nothing closes is plain text, and so is all that follows it.
pub proof fn law_unclosed_bold_is_plain(s: Seq<char>, plain: Seq<char>, p: Palette)
    requires
        text::has_prefix(s, seq!['*', '*']),
        forall|i: int| 2 <= i < s.len() - 1 ==> !(s[i] == '*' && #[trigger] s[i + 1] == '*'),
    ensures
        inline_segments(s, plain, p) == flushed(plain, p) + seq![(s, p.base)],
{
    let mark = seq!['*', '*'];
    assert(s[0] == s.take(2)[0] && s[0] == '*');
    let rest = s.skip(2);
    text::lemma_first_match(rest, mark);
    match text::first_match(rest, mark) {
        Some(k) => {
            assert(rest.subrange(k, k + 2)[0] == '*');
            assert(rest.subrange(k, k + 2)[1] == '*');
            assert(s[k + 2] == rest[k] && s[k + 2 + 1] == rest[k + 1]);
            assert(false);
        },
        None => {},
    }
}

proof fn lemma_no_markers(s: Seq<char>, plain: Seq<char>, p: Palette)
    requires
        forall|i: int| 0 <= i < s.len() ==> s[i] != '`' && s[i] != '*',
    ensures
        inline_segments(s, plain, p) == flushed(plain + s, p),
    decreases s.len(),
{
    if s.len() == 0 {
        assert(plain + s =~= plain);
    } else {
        if text::has_prefix(s, seq!['*', '*']) {
            assert(s.take(2)[0] == s[0]);
        }
        lemma_no_markers(s.skip(1), plain.push(s[0]), p);
        assert(plain.push(s[0]) + s.skip(1) =~= plain + s);
    }
}

/// A line without any marker is one plain segment.
pub proof fn law_plain_line_is_kept(line: Seq<char>, p: Palette)
    requires
        !is_fence(line),
        !is_heading(line),
        bullet(line).1 == 0,
        forall|i: int| 0 <= i < line.len() ==> line[i] != '`' && line[i] != '*',
    ensures
        markdown(line, false, p) == seq![(line, p.base)],
{
    let none = Seq::<char>::empty();
    reveal_strlit("  • ");
    reveal_strlit("    ◦ ");
    assert(line.skip(0) =~= line);
    lemma_no_markers(line, none, p);
    assert(none + line =~= line);
    assert(flushed(none, p) + flushed(line, p) =~= flushed(line, p));
    if line.len() == 0 {
        assert(line =~= none);
    }
}

fn push_segment(v: &mut Vec<Segment>, t: &Vec<char>, style: Style)
    ensures
        segments(final(v)@) == segments(old(v)@).push((t@, style)),
{
    let ghost before = v@;
    let s: Segment = (string_of(t), style);
    v.push(s);
    proof {
        assert(segments(v@) =~= segments(before).push((t@, style)));
    }
}

fn flush(v: &mut Vec<Segment>, t: &Vec<char>, p: &Palette)
    ensures
        segments(final(v)@) == segments(old(v)@) + flushed(t@, *p),
{
    let ghost before = segments(v@);
    if t.len() > 0 {
        push_segment(v, t, p.base);
        proof {
            assert(before.push((t@, p.base)) =~= before + flushed(t@, *p));
        }
    } else {
        proof {
            assert(before =~= before + flushed(t@, *p));
        }
    }
}

/// Appends the inline segments of `t` from position `from` on.
fn inline_into(v: &mut Vec<Segment>, t: &Vec<char>, from: usize, p: &Palette)
    requires
        from <= t@.len(),
    ensures
        segments(final(v)@) == segments(old(v)@) + inline_segments(
            t@.skip(from as int),
            Seq::empty(),
            *p,
        ),
{
    let ghost want = segments(v@) + inline_segments(t@.skip(from as int), Seq::empty(), *p);
    let ghost none = Seq::<char>::empty();
    let mut plain: Vec<char> = Vec::new();
    let stars: Vec<char> = vec!['*', '*'];
    let mut i: usize = from;
    proof {
        assert(plain@ =~= none);
        assert(stars@ =~= seq!['*', '*']);
    }
    while i < t.len()
        invariant
            from <= i <= t@.len(),
            stars@ == seq!['*', '*'],
            none == Seq::<char>::empty(),
            segments(v@) + inline_segments(t@.skip(i as int), plain@, *p) == want,
        decreases t@.len() - i,
    {
        let ghost s = t@.skip(i as int);
        let ghost done = segments(v@);
        let ghost before = flushed(plain@, *p);
        let bold = matches_stars(t, i, &stars);
        proof {
            assert(s[0] == t@[i as int]);
        }
        if t[i] == '`' {
            flush(v, &plain, p);
            let k = find_char(t, i + 1, '`');
            let ghost rest = s.skip(1);
            proof {
                assert(rest =~= t@.skip(i + 1));
                text::lemma_first_at(rest, '`');
            }
            if k == t.len() {
                plain = piece(t, i, k);
                proof {
                    assert(plain@ =~= s);
                    assert(t@.skip(k as int) =~= none);
                    assert((done + before) + flushed(s, *p) =~= done + (before + flushed(s, *p)));
                }
                i = k;
            } else if k > i + 1 {
                let code = piece(t, i + 1, k);
                push_segment(v, &code, p.inline_code);
                plain = Vec::new();
                proof {
                    assert(plain@ =~= none);
                    assert(code@ =~= rest.take(k - i - 1));
                    assert(rest.skip(k - i - 1 + 1) =~= t@.skip(k + 1));
                    let tail = inline_segments(t@.skip(k + 1), none, *p);
                    assert((done + before).push((code@, p.inline_code)) + tail =~= done + (before
                        + seq![(code@, p.inline_code)] + tail));
                }
                i = k + 1;
            } else {
                plain = vec!['`'];
                proof {
                    assert(plain@ =~= seq!['`']);
                    assert(rest.skip(1) =~= t@.skip(k + 1));
                    let tail = inline_segments(t@.skip(k + 1), plain@, *p);
                    assert((done + before) + tail =~= done + (before + tail));
                }
                i = k + 1;
            }
        } else if bold {
            flush(v, &plain, p);
            let ghost rest = s.skip(2);
            proof {
                assert(rest =~= t@.skip(i + 2));
                text::lemma_first_match(rest, seq!['*', '*']);
            }
            match find_text(t, i + 2, &stars) {
                None => {
                    plain = piece(t, i, t.len());
                    i = t.len();
                    proof {
                        assert(plain@ =~= s);
                        assert(t@.skip(i as int) =~= none);
                        assert((done + before) + flushed(s, *p) =~= done + (before + flushed(
                            s,
                            *p,
                        )));
                    }
                },
                Some(k) => {
                    if k > i + 2 {
                        let strong = piece(t, i + 2, k);
                        push_segment(v, &strong, p.bold);
                        plain = Vec::new();
                        proof {
                            assert(plain@ =~= none);
                            assert(strong@ =~= rest.take(k - i - 2));
                            assert(rest.skip(k - i - 2 + 2) =~= t@.skip(k + 2));
                            let tail = inline_segments(t@.skip(k + 2), none, *p);
                            assert((done + before).push((strong@, p.bold)) + tail =~= done + (before
                                + seq![(strong@, p.bold)] + tail));
                        }
                    } else {
                        plain = vec!['*', '*'];
                        proof {
                            assert(plain@ =~= seq!['*', '*']);
                            assert(rest.skip(2) =~= t@.skip(k + 2));
                            let tail = inline_segments(t@.skip(k + 2), plain@, *p);
                            assert((done + before) + tail =~= done + (before + tail));
                        }
                    }
                    i = k + 2;
                },
            }
        } else {
            plain.push(t[i]);
            proof {
                assert(s.skip(1) =~= t@.skip(i + 1));
            }
            i = i + 1;
        }
    }
    proof {
        assert(t@.skip(i as int) =~= none);
    }
    flush(v, &plain, p);
}

fn matches_stars(t: &Vec<char>, at: usize, stars: &Vec<char>) -> (r: bool)
    requires
        at <= t.len(),
        stars@ == seq!['*', '*'],
    ensures
        r == text::has_prefix(t@.skip(at as int), seq!['*', '*']),
        r ==> at + 2 <= t.len(),
{
    text::matches_at(t, at, stars)
}

fn strip_hashes(t: &Vec<char>) -> (r: Vec<char>)
    ensures
        r@ == without_hashes(t@),
{
    let mut i: usize = 0;
    proof {
        assert(t@.skip(0) =~= t@);
    }
    while i < t.len() && t[i] == '#'
        invariant
            i <= t@.len(),
            without_hashes(t@.skip(i as int)) == without_hashes(t@),
        decreases t@.len() - i,
    {
        proof {
            assert(t@.skip(i as int).skip(1) =~= t@.skip(i + 1));
            assert(t@.skip(i as int)[0] == t@[i as int]);
        }
        i = i + 1;
    }
    let r = piece(t, i, t.len());
    proof {
        assert(r@ =~= t@.skip(i as int));
        if i < t@.len() {
            assert(t@.skip(i as int)[0] == t@[i as int]);
        }
    }
    r
}

fn fence(t: &Vec<char>) -> (r: bool)
    ensures
        r == is_fence(t@),
{
    let s = trim_start(t);
    starts_with(&s, "```")
}

/// Parse a line of text for markdown-like inline formatting.
///
/// Recognises fenced code blocks (``` delimiters), ATX headers (`#`), unordered list items (`-` /
/// `*`), inline code (`` ` ``), and bold (`**…**`). Unclosed formatting markers are emitted as
/// plain text.
pub fn parse_markdown_segments(line: &str, in_code_block: &mut bool, palette: &Palette) -> (r: Vec<
    Segment,
>)
    ensures
        segments(r@) == markdown(line@, *old(in_code_block), *palette),
        *final(in_code_block) == stays_in_code(line@, *old(in_code_block)),
{
    let t = chars_of(line);
    let mut out: Vec<Segment> = Vec::new();
    proof {
        assert(segments(out@) =~= Seq::<(Seq<char>, Style)>::empty());
    }
    let is_fence = fence(&t);
    if *in_code_block || is_fence {
        *in_code_block = *in_code_block != is_fence;
        push_segment(&mut out, &t, palette.code);
        proof {
            assert(segments(out@) =~= markdown(line@, true, *palette));
        }
        return out;
    }
    if starts_with(&t, "# ") || starts_with(&t, "## ") || starts_with(&t, "### ") {
        let s = strip_hashes(&t);
        let s = trim_start(&s);
        push_segment(&mut out, &s, palette.bold);
        proof {
            assert(segments(out@) =~= markdown(line@, false, *palette));
        }
        return out;
    }
    let ghost none = Seq::<(Seq<char>, Style)>::empty();
    let n: usize = if starts_with(&t, "- ") || starts_with(&t, "* ") {
        let mark = chars_of("  • ");
        flush(&mut out, &mark, palette);
        proof {
            reveal_strlit("- ");
            reveal_strlit("* ");
        }
        2
    } else if starts_with(&t, "  - ") || starts_with(&t, "  * ") {
        let mark = chars_of("    ◦ ");
        flush(&mut out, &mark, palette);
        proof {
            reveal_strlit("  - ");
            reveal_strlit("  * ");
        }
        4
    } else {
        0
    };
    proof {
        let mark = bullet(line@).0;
        assert(none + flushed(mark, *palette) =~= flushed(mark, *palette));
    }
    inline_into(&mut out, &t, n, palette);
    proof {
        assert(segments(out@).len() == out@.len());
    }
    if out.len() == 0 {
        let empty: Vec<char> = Vec::new();
        proof {
            assert(empty@ =~= Seq::<char>::empty());
            assert(segments(out@) =~= none);
        }
        push_segment(&mut out, &empty, palette.base);
        proof {
            assert(segments(out@) =~= seq![(Seq::<char>::empty(), palette.base)]);
        }
    }
    out
}

proof fn lemma_plain_start(a: Seq<char>, s: Seq<char>, plain: Seq<char>, p: Palette)
    requires
        forall|i: int| 0 <= i < a.len() ==> a[i] != '`' && a[i] != '*',
    ensures
        inline_segments(a + s, plain, p) == inline_segments(s, plain + a, p),
    decreases a.len(),
{
    let all = a + s;
    if a.len() == 0 {
        assert(all =~= s);
        assert(plain + a =~= plain);
    } else {
        assert(all[0] == a[0]);
        if text::has_prefix(all, seq!['*', '*']) {
            assert(all.take(2)[0] == all[0]);
        }
        assert(all.skip(1) =~= a.skip(1) + s);
        lemma_plain_start(a.skip(1), s, plain.push(a[0]), p);
        assert(plain.push(a[0]) + a.skip(1) =~= plain + a);
    }
}

/// What stands between two backticks is shown as code, what stands between two pairs of stars in
/// bold, both without the marks; the text before is plain, and what follows is read by itself.
pub proof fn law_marks_set_text_apart(a: Seq<char>, marked: Seq<char>, rest: Seq<char>, p: Palette)
    requires
        forall|i: int| 0 <= i < a.len() ==> a[i] != '`' && a[i] != '*',
        forall|i: int| 0 <= i < marked.len() ==> marked[i] != '`' && marked[i] != '*',
        marked.len() > 0,
        a.len() > 0,
    ensures
        ({
            let none = Seq::<char>::empty();
            let tick = seq!['`'];
            let stars = seq!['*', '*'];
            &&& inline_segments(a + (tick + marked + tick + rest), none, p) == seq![
                (a, p.base),
                (marked, p.inline_code),
            ] + inline_segments(rest, none, p)
            &&& inline_segments(a + (stars + marked + stars + rest), none, p) == seq![
                (a, p.base),
                (marked, p.bold),
            ] + inline_segments(rest, none, p)
            &&& inline_segments(a, none, p) == seq![(a, p.base)]
        }),
{
    let none = Seq::<char>::empty();
    let tick = seq!['`'];
    let stars = seq!['*', '*'];
    let n = marked.len() as int;
    assert(none + a =~= a);
    let s = tick + marked + tick + rest;
    lemma_plain_start(a, s, none, p);
    let t = s.skip(1);
    assert(t =~= marked + tick + rest);
    text::lemma_first_at_is(t, '`', n);
    assert(t.take(n) =~= marked);
    assert(t.skip(n + 1) =~= rest);
    assert(flushed(a, p) + seq![(marked, p.inline_code)] =~= seq![
        (a, p.base),
        (marked, p.inline_code),
    ]);
    let b = stars + marked + stars + rest;
    lemma_plain_start(a, b, none, p);
    assert(b.take(2) =~= stars);
    assert(b[0] == '*');
    let u = b.skip(2);
    assert(u =~= marked + stars + rest);
    text::lemma_first_match(u, stars);
    assert(u.skip(n).take(2) =~= stars);
    assert(text::has_prefix(u.skip(n), stars));
    assert(text::first_match(u, stars) == Some(n)) by {
        match text::first_match(u, stars) {
            Some(k) => {
                if k < n {
                    assert(u.subrange(k, k + 2)[0] == u[k]);
                    assert(u[k] == marked[k]);
                }
                if k > n {
                    assert(!text::has_prefix(u.skip(n), stars));
                }
            },
            None => {
                assert(!text::has_prefix(u.skip(n), stars));
            },
        }
    }
    assert(u.take(n) =~= marked);
    assert(u.skip(n + 2) =~= rest);
    assert(flushed(a, p) + seq![(marked, p.bold)] =~= seq![(a, p.base), (marked, p.bold)]);
    lemma_plain_start(a, none, none, p);
    assert(a + none =~= a);
}

proof fn lemma_first_char(s: Seq<char>, q: Seq<char>, k: int)
    requires
        0 <= k < q.len(),
        k < s.len() ==> s[k] != q[k],
    ensures
        !text::has_prefix(s, q),
{
    if text::has_prefix(s, q) {
        assert(s.take(q.len() as int)[k] == s[k]);
    }
}

proof fn lemma_line_marks()
    ensures
        "```"@ == seq!['`', '`', '`'],
        "# "@ == seq!['#', ' '],
        "## "@ == seq!['#', '#', ' '],
        "### "@ == seq!['#', '#', '#', ' '],
        "- "@ == seq!['-', ' '],
        "* "@ == seq!['*', ' '],
        "  - "@ == seq![' ', ' ', '-', ' '],
        "  * "@ == seq![' ', ' ', '*', ' '],
{
    reveal_strlit("```");
    reveal_strlit("# ");
    reveal_strlit("## ");
    reveal_strlit("### ");
    reveal_strlit("- ");
    reveal_strlit("* ");
    reveal_strlit("  - ");
    reveal_strlit("  * ");
    assert("```"@ =~= seq!['`', '`', '`']);
    assert("# "@ =~= seq!['#', ' ']);
    assert("## "@ =~= seq!['#', '#', ' ']);
    assert("### "@ =~= seq!['#', '#', '#', ' ']);
    assert("- "@ =~= seq!['-', ' ']);
    assert("* "@ =~= seq!['*', ' ']);
    assert("  - "@ =~= seq![' ', ' ', '-', ' ']);
    assert("  * "@ =~= seq![' ', ' ', '*', ' ']);
}

/// A line that starts with one, two or three hashes and a blank is a heading: its text is shown in
/// bold, without the hashes.
pub proof fn law_headings_are_bold(t: Seq<char>, p: Palette)
    requires
        t.len() > 0,
        !lines::is_white(t[0]),
    ensures
        markdown(seq!['#', ' '] + t, false, p) == seq![(t, p.bold)],
        markdown(seq!['#', '#', ' '] + t, false, p) == seq![(t, p.bold)],
        markdown(seq!['#', '#', '#', ' '] + t, false, p) == seq![(t, p.bold)],
{
    lemma_line_marks();
    let one = seq!['#', ' '] + t;
    let two = seq!['#', '#', ' '] + t;
    let three = seq!['#', '#', '#', ' '] + t;
    let body = seq![' '] + t;
    assert(lines::is_white(' '));
    assert(!lines::is_white('#'));
    assert(lines::trim_start_of(one) == one && lines::trim_start_of(two) == two
        && lines::trim_start_of(three) == three);
    lemma_first_char(one, "```"@, 0);
    lemma_first_char(two, "```"@, 0);
    lemma_first_char(three, "```"@, 0);
    assert(one.take(2) =~= "# "@);
    assert(two.take(3) =~= "## "@);
    assert(three.take(4) =~= "### "@);
    assert(one.skip(1) =~= body);
    assert(two.skip(1) =~= one);
    assert(three.skip(1) =~= two);
    assert(without_hashes(body) == body);
    assert(without_hashes(one) == body);
    assert(without_hashes(two) == body);
    assert(without_hashes(three) == body);
    assert(body.skip(1) =~= t);
    assert(lines::trim_start_of(t) == t);
    assert(lines::trim_start_of(body) == t);
}

/// A line that starts with a dash or a star and a blank is an item of a list, and starts with a
/// bullet instead; with two blanks in front, it is one further in. The rest is read as any text.
pub proof fn law_list_items_have_bullets(t: Seq<char>, p: Palette)
    ensures
        ({
            let none = Seq::<char>::empty();
            let text = inline_segments(t, none, p);
            let outer = seq![("  • "@, p.base)] + text;
            let inner = seq![("    ◦ "@, p.base)] + text;
            &&& markdown(seq!['-', ' '] + t, false, p) == outer
            &&& markdown(seq!['*', ' '] + t, false, p) == outer
            &&& !text::has_prefix(lines::trim_start_of(seq![' ', ' ', '-', ' '] + t), seq!['`', '`', '`'])
                ==> markdown(seq![' ', ' ', '-', ' '] + t, false, p) == inner
        }),
{
    lemma_line_marks();
    reveal_strlit("  • ");
    reveal_strlit("    ◦ ");
    let none = Seq::<char>::empty();
    let dash = seq!['-', ' '] + t;
    let star = seq!['*', ' '] + t;
    let deep = seq![' ', ' ', '-', ' '] + t;
    assert(!lines::is_white('-') && !lines::is_white('*'));
    assert(lines::trim_start_of(dash) == dash && lines::trim_start_of(star) == star);
    lemma_first_char(dash, "```"@, 0);
    lemma_first_char(star, "```"@, 0);
    lemma_first_char(dash, "# "@, 0);
    lemma_first_char(dash, "## "@, 0);
    lemma_first_char(dash, "### "@, 0);
    lemma_first_char(star, "# "@, 0);
    lemma_first_char(star, "## "@, 0);
    lemma_first_char(star, "### "@, 0);
    lemma_first_char(deep, "# "@, 0);
    lemma_first_char(deep, "## "@, 0);
    lemma_first_char(deep, "### "@, 0);
    lemma_first_char(deep, "- "@, 0);
    lemma_first_char(deep, "* "@, 0);
    assert(dash.take(2) =~= "- "@);
    assert(star.take(2) =~= "* "@);
    assert(deep.take(4) =~= "  - "@);
    assert(dash.skip(2) =~= t);
    assert(star.skip(2) =~= t);
    assert(deep.skip(4) =~= t);
}

/// Inside a fenced block a line is shown as code, as it is; a line with three backticks in front is
/// shown so too, and opens the block or closes it. No other line does.
pub proof fn law_fences_enclose_code(line: Seq<char>, t: Seq<char>, p: Palette)
    ensures
        markdown(line, true, p) == seq![(line, p.code)],
        markdown(seq!['`', '`', '`'] + t, false, p) == seq![(seq!['`', '`', '`'] + t, p.code)],
        stays_in_code(seq!['`', '`', '`'] + t, false),
        !stays_in_code(seq!['`', '`', '`'] + t, true),
        line.len() > 0 && !lines::is_white(line[0]) && line[0] != '`' ==> stays_in_code(line, true)
            && !stays_in_code(line, false),
{
    lemma_line_marks();
    let fence = seq!['`', '`', '`'] + t;
    assert(!lines::is_white('`'));
    assert(lines::trim_start_of(fence) == fence);
    assert(fence.take(3) =~= "```"@);
    if line.len() > 0 && !lines::is_white(line[0]) && line[0] != '`' {
        lemma_first_char(line, "```"@, 0);
    }
}

/// A mark with nothing between it and its partner stands for one mark as text.
pub proof fn law_empty_marks_are_text(a: Seq<char>, rest: Seq<char>, p: Palette)
    requires
        forall|i: int| 0 <= i < a.len() ==> a[i] != '`' && a[i] != '*',
        a.len() > 0,
    ensures
        ({
            let none = Seq::<char>::empty();
            let tick = seq!['`'];
            let stars = seq!['*', '*'];
            &&& inline_segments(a + (tick + tick + rest), none, p) == seq![(a, p.base)]
                + inline_segments(rest, tick, p)
            &&& inline_segments(a + (stars + stars + rest), none, p) == seq![(a, p.base)]
                + inline_segments(rest, stars, p)
        }),
{
    let none = Seq::<char>::empty();
    let tick = seq!['`'];
    let stars = seq!['*', '*'];
    assert(none + a =~= a);
    let s = tick + tick + rest;
    lemma_plain_start(a, s, none, p);
    assert(s.skip(1) =~= tick + rest);
    text::lemma_first_at_is(s.skip(1), '`', 0);
    assert(s.skip(1).skip(1) =~= rest);
    let b = stars + stars + rest;
    lemma_plain_start(a, b, none, p);
    assert(b.take(2) =~= stars);
    assert(b[0] == '*');
    let t = b.skip(2);
    assert(t =~= stars + rest);
    assert(t.take(2) =~= stars);
    lemma_match_at_start(t, stars);
    assert(t.skip(2) =~= rest);
}

proof fn lemma_match_at_start(s: Seq<char>, mark: Seq<char>)
    requires
        mark.len() <= s.len(),
        s.take(mark.len() as int) == mark,
    ensures
        text::first_match(s, mark) == Some(0int),
{
    text::lemma_first_match(s, mark);
    assert(s.skip(0) =~= s);
    assert(text::has_prefix(s.skip(0), mark));
}

proof fn lemma_no_stars(s: Seq<char>)
    requires
        forall|i: int| 0 <= i < s.len() ==> s[i] != '*',
    ensures
        text::first_match(s, seq!['*', '*']) is None,
{
    text::lemma_first_match(s, seq!['*', '*']);
    match text::first_match(s, seq!['*', '*']) {
        Some(k) => {
            assert(s.skip(k).take(2)[0] == s[k]);
        },
        None => {},
    }
}

/// A mark without a partner is text, with all that follows it.
pub proof fn law_lone_marks_are_text(a: Seq<char>, tail: Seq<char>, p: Palette)
    requires
        forall|i: int| 0 <= i < a.len() ==> a[i] != '`' && a[i] != '*',
        forall|i: int| 0 <= i < tail.len() ==> tail[i] != '`' && tail[i] != '*',
        a.len() > 0,
    ensures
        ({
            let none = Seq::<char>::empty();
            let tick = seq!['`'];
            let stars = seq!['*', '*'];
            &&& inline_segments(a + (tick + tail), none, p) == seq![
                (a, p.base),
                (tick + tail, p.base),
            ]
            &&& inline_segments(a + (stars + tail), none, p) == seq![
                (a, p.base),
                (stars + tail, p.base),
            ]
        }),
{
    let none = Seq::<char>::empty();
    let tick = seq!['`'];
    let stars = seq!['*', '*'];
    assert(none + a =~= a);
    let c = tick + tail;
    lemma_plain_start(a, c, none, p);
    assert(c.skip(1) =~= tail);
    text::lemma_first_at_is(tail, '`', tail.len() as int);
    assert(flushed(a, p) + flushed(c, p) =~= seq![(a, p.base), (c, p.base)]);
    let d = stars + tail;
    lemma_plain_start(a, d, none, p);
    assert(d.take(2) =~= stars);
    assert(d[0] == '*');
    assert(d.skip(2) =~= tail);
    lemma_no_stars(tail);
    assert(flushed(a, p) + flushed(d, p) =~= seq![(a, p.base), (d, p.base)]);
}

} // verus!
