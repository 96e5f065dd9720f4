//! Display width and word wrapping.

use vstd::prelude::*;

use unicode_width::UnicodeWidthStr;

use crate::lines;
use crate::lines::split_words;
use crate::text;
use crate::text::{chars_of, extend, string_of};

verus! {

broadcast use vstd::string::group_string_axioms;

/// The number of columns that `UnicodeWidthStr::width` gives a text.
pub uninterp spec fn display_width(s: Seq<char>) -> nat;

/// Whether the text is made of printable ASCII characters.
pub open spec fn is_printable_ascii(s: Seq<char>) -> bool {
    forall|i: int| 0 <= i < s.len() ==> ' ' <= #[trigger] s[i] <= '~'
}

/// `UnicodeWidthStr::width` of the unicode-width crate: the columns that a text takes up on the
/// terminal. Wide characters take two columns and control characters none; of printable ASCII,
/// each character takes one.
#[verifier::external_body]
pub(crate) fn text_width(s: &str) -> (r: usize)
    ensures
        r == display_width(s@),
        is_printable_ascii(s@) ==> r == s@.len(),
{
    UnicodeWidthStr::width(s)
}

/// The display width of a text.
pub fn width_of(t: &Vec<char>) -> (r: usize)
    ensures
        r == display_width(t@),
        is_printable_ascii(t@) ==> r == t@.len(),
{
    let s = string_of(t);
    text_width(s.as_str())
}

/// How far a text moves the drawing position: its display width, as far as a coordinate tells.
pub open spec fn advance(s: Seq<char>) -> int {
    (display_width(s) % 65536) as int
}

/// Words with one space between each and the next.
pub open spec fn joined(words: Seq<Seq<char>>) -> Seq<char>
    decreases words.len(),
{
    if words.len() == 0 {
        Seq::empty()
    } else if words.len() == 1 {
        words[0]
    } else {
        joined(words.drop_last()) + seq![' '] + words.last()
    }
}

/// The columns of words on one line: their own, and one for each space between them.
pub open spec fn columns(words: Seq<Seq<char>>) -> nat
    decreases words.len(),
{
    if words.len() == 0 {
        0
    } else if words.len() == 1 {
        display_width(words[0])
    } else {
        columns(words.drop_last()) + 1 + display_width(words.last())
    }
}

/// How many of the words still fit on a line that has `used` columns taken up already.
pub open spec fn fitting(words: Seq<Seq<char>>, used: nat, max: nat) -> nat
    decreases words.len(),
{
    if words.len() == 0 || used + 1 + display_width(words[0]) > max {
        0
    } else {
        1 + fitting(words.skip(1), used + 1 + display_width(words[0]), max)
    }
}

/// How many of the words go on the first line: one in any case, and as many more as fit.
pub open spec fn first_line(words: Seq<Seq<char>>, max: nat) -> nat {
    1 + fitting(words.skip(1), display_width(words[0]), max)
}

proof fn lemma_fitting(words: Seq<Seq<char>>, used: nat, max: nat)
    ensures
        fitting(words, used, max) <= words.len(),
    decreases words.len(),
{
    if words.len() > 0 {
        lemma_fitting(words.skip(1), used + 1 + display_width(words[0]), max);
    }
}

/// The words laid out on lines of at most `max` columns, each line filled as far as it goes. A
/// word that is wider than a line has a line to itself.
pub open spec fn line_groups(words: Seq<Seq<char>>, max: nat) -> Seq<Seq<Seq<char>>>
    decreases words.len(),
    via line_groups_decreases
{
    if words.len() == 0 {
        Seq::empty()
    } else {
        let n = first_line(words, max) as int;
        seq![words.take(n)] + line_groups(words.skip(n), max)
    }
}

#[via_fn]
proof fn line_groups_decreases(words: Seq<Seq<char>>, max: nat) {
    if words.len() > 0 {
        lemma_fitting(words.skip(1), display_width(words[0]), max);
    }
}

/// A text wrapped at `max` columns. There is always a line, if an empty one.
pub open spec fn wrapped(s: Seq<char>, max: nat) -> Seq<Seq<char>> {
    let words = lines::words(s);
    if max == 0 || words.len() == 0 {
        seq![Seq::empty()]
    } else {
        line_groups(words, max).map_values(|g: Seq<Seq<char>>| joined(g))
    }
}

/// Wrapping keeps the words: the groups of words on the lines are the words, in order.
pub proof fn law_wrapping_keeps_words(words: Seq<Seq<char>>, max: nat)
    ensures
        line_groups(words, max).flatten() == words,
    decreases words.len(),
{
    if words.len() == 0 {
        assert(line_groups(words, max).flatten() =~= words);
    } else {
        let n = first_line(words, max) as int;
        lemma_fitting(words.skip(1), display_width(words[0]), max);
        law_wrapping_keeps_words(words.skip(n), max);
        let all = line_groups(words, max);
        let rest = line_groups(words.skip(n), max);
        assert(all.drop_first() =~= rest);
        assert(all.first() == words.take(n));
        assert(all.flatten() =~= words.take(n) + rest.flatten());
        assert(words.take(n) + words.skip(n) =~= words);
    }
}

proof fn lemma_columns_of_fitting(words: Seq<Seq<char>>, k: int, max: nat)
    requires
        1 <= k <= words.len(),
        columns(words.take(k)) <= max,
    ensures
        ({
            let n = k + fitting(words.skip(k), columns(words.take(k)), max);
            n <= words.len() && columns(words.take(n)) <= max
        }),
    decreases words.len() - k,
{
    let used = columns(words.take(k));
    let rest = words.skip(k);
    if rest.len() > 0 && used + 1 + display_width(rest[0]) <= max {
        assert(words.take(k + 1).drop_last() =~= words.take(k));
        assert(words.take(k + 1).last() == rest[0]);
        assert(columns(words.take(k + 1)) == used + 1 + display_width(rest[0]));
        assert(rest.skip(1) =~= words.skip(k + 1));
        lemma_columns_of_fitting(words, k + 1, max);
    }
}

/// No line is wider than asked for, except where it holds a single word that is.
pub proof fn law_wrapped_lines_fit(words: Seq<Seq<char>>, max: nat)
    ensures
        forall|i: int|
            0 <= i < line_groups(words, max).len() ==> {
                let line = #[trigger] line_groups(words, max)[i];
                columns(line) <= max || (line.len() == 1 && display_width(line[0]) > max)
            },
    decreases words.len(),
{
    if words.len() > 0 {
        let n = first_line(words, max) as int;
        let all = line_groups(words, max);
        let rest = line_groups(words.skip(n), max);
        lemma_fitting(words.skip(1), display_width(words[0]), max);
        law_wrapped_lines_fit(words.skip(n), max);
        let head = words.take(1);
        assert(head[0] == words[0]);
        assert(columns(head) == display_width(words[0]));
        if display_width(words[0]) <= max {
            lemma_columns_of_fitting(words, 1, max);
        } else {
            assert(n == 1);
        }
        assert forall|i: int| 0 <= i < all.len() implies {
            let line = #[trigger] all[i];
            columns(line) <= max || (line.len() == 1 && display_width(line[0]) > max)
        } by {
            if i == 0 {
                assert(all[0] == words.take(n));
            } else {
                assert(all[i] == rest[i - 1]);
            }
        }
    }
}

/// Words joined with spaces and more text behind them.
proof fn lemma_words_of_joined(ws: Seq<Seq<char>>, rest: Seq<char>)
    requires
        ws.len() > 0,
        forall|j: int| 0 <= j < ws.len() ==> (#[trigger] ws[j]).len() > 0,
        forall|j: int, i: int|
            0 <= j < ws.len() && 0 <= i < ws[j].len() ==> !lines::is_white(#[trigger] ws[j][i]),
        rest.len() == 0 || lines::is_white(rest[0]),
    ensures
        lines::words(joined(ws) + rest) == ws + lines::words(rest),
    decreases ws.len(),
{
    if ws.len() == 1 {
        lines::lemma_word_then(ws[0], rest);
        assert(seq![ws[0]] =~= ws);
    } else {
        let head = ws.drop_last();
        let tail = seq![' '] + ws.last() + rest;
        assert(joined(ws) + rest =~= joined(head) + tail);
        assert forall|j: int, i: int| 0 <= j < head.len() && 0 <= i < head[j].len() implies
            !lines::is_white(#[trigger] head[j][i]) by {
            assert(head[j] == ws[j]);
            assert(!lines::is_white(ws[j][i]));
        }
        lemma_words_of_joined(head, tail);
        assert(tail.skip(1) =~= ws.last() + rest);
        let w = ws.last();
        assert forall|i: int| 0 <= i < w.len() implies !lines::is_white(#[trigger] w[i]) by {
            assert(!lines::is_white(ws[ws.len() - 1][i]));
        }
        lines::lemma_word_then(w, rest);
        assert(head + (seq![w] + lines::words(rest)) =~= ws + lines::words(rest));
    }
}

/// The words of a line are the words it was put together from.
pub proof fn law_line_reads_back(ws: Seq<Seq<char>>)
    requires
        forall|j: int| 0 <= j < ws.len() ==> (#[trigger] ws[j]).len() > 0,
        forall|j: int, i: int|
            0 <= j < ws.len() && 0 <= i < ws[j].len() ==> !lines::is_white(#[trigger] ws[j][i]),
    ensures
        lines::words(joined(ws)) == ws,
{
    if ws.len() > 0 {
        let none = Seq::<char>::empty();
        lemma_words_of_joined(ws, none);
        assert(joined(ws) + none =~= joined(ws));
        assert(ws + lines::words(none) =~= ws);
    } else {
        assert(lines::words(joined(ws)) =~= ws);
    }
}

/// The words from `from` on that go on one line.
fn fill_line(words: &Vec<Vec<char>>, from: usize, max: usize) -> (r: (Vec<char>, usize))
    requires
        from < words.len(),
    ensures
        r.1 == from + first_line(text::texts(words@).skip(from as int), max as nat),
        r.1 <= words@.len(),
        r.0@ == joined(text::texts(words@).subrange(from as int, r.1 as int)),
{
    let ghost all = text::texts(words@);
    let ghost rest = all.skip(from as int);
    let mut line = text::piece(&words[from], 0, words[from].len());
    let mut used: u128 = width_of(&words[from]) as u128;
    let mut n: usize = from + 1;
    proof {
        assert(line@ =~= words@[from as int]@);
        assert(all[from as int] == words@[from as int]@);
        assert(rest[0] == all[from as int]);
        assert(all.subrange(from as int, n as int) =~= seq![rest[0]]);
        assert(joined(seq![rest[0]]) == rest[0]);
        assert(rest.skip(1) =~= all.skip(n as int));
    }
    loop
        invariant_except_break
            from < n <= words@.len(),
            all == text::texts(words@),
            rest == all.skip(from as int),
            line@ == joined(all.subrange(from as int, n as int)),
            used <= 2 * usize::MAX + 1,
            first_line(rest, max as nat) == n - from + fitting(
                all.skip(n as int),
                used as nat,
                max as nat,
            ),
        ensures
            from < n <= words@.len(),
            line@ == joined(all.subrange(from as int, n as int)),
            first_line(rest, max as nat) == n - from,
        decreases words@.len() - n,
    {
        if n == words.len() {
            break;
        }
        let word = &words[n];
        let w: u128 = width_of(word) as u128;
        proof {
            assert(all[n as int] == word@);
            assert(all.skip(n as int)[0] == word@);
        }
        if used + 1 + w > max as u128 {
            break;
        }
        line.push(' ');
        extend(&mut line, word);
        used = used + 1 + w;
        proof {
            let group = all.subrange(from as int, n + 1);
            assert(group.drop_last() =~= all.subrange(from as int, n as int));
            assert(group.last() == word@);
            assert(joined(group) == joined(group.drop_last()) + seq![' '] + word@);
            assert(line@ =~= joined(group));
            assert(all.skip(n as int).skip(1) =~= all.skip(n + 1));
        }
        n = n + 1;
    }
    (line, n)
}

/// Word-wrap a single line of text at `max_width` display columns.
///
/// Splits on whitespace and measures each word by its display width, so that wide characters are
/// handled correctly.
pub fn word_wrap(text: &str, max_width: usize) -> (r: Vec<String>)
    ensures
        text::strings(r@) == wrapped(text@, max_width as nat),
{
    let mut out: Vec<String> = Vec::new();
    let t = chars_of(text);
    let words = split_words(&t);
    let ghost all = text::texts(words@);
    proof {
        assert(text::texts(words@).len() == words@.len());
    }
    if max_width == 0 || words.len() == 0 {
        out.push(String::new());
        proof {
            assert(text::strings(out@)[0] =~= Seq::<char>::empty());
            assert(text::strings(out@) =~= wrapped(text@, max_width as nat));
        }
        return out;
    }
    let ghost join = |g: Seq<Seq<char>>| joined(g);
    let mut i: usize = 0;
    proof {
        assert(all.skip(0) =~= all);
        assert(text::strings(out@) + line_groups(all, max_width as nat).map_values(join)
            =~= line_groups(all, max_width as nat).map_values(join));
    }
    while i < words.len()
        invariant
            i <= words@.len(),
            all == text::texts(words@),
            join == (|g: Seq<Seq<char>>| joined(g)),
            text::strings(out@) + line_groups(all.skip(i as int), max_width as nat).map_values(join)
                == line_groups(all, max_width as nat).map_values(join),
        decreases words@.len() - i,
    {
        let (line, next) = fill_line(&words, i, max_width);
        let line = string_of(&line);
        proof {
            let rest = all.skip(i as int);
            let n = next - i;
            assert(rest.take(n) =~= all.subrange(i as int, next as int));
            assert(rest.skip(n) =~= all.skip(next as int));
            assert(line_groups(rest, max_width as nat) =~= seq![rest.take(n)] + line_groups(
                all.skip(next as int),
                max_width as nat,
            ));
            text::lemma_strings_push(out@, line);
            assert(text::strings(out@).push(line@) + line_groups(
                all.skip(next as int),
                max_width as nat,
            ).map_values(join) =~= text::strings(out@) + line_groups(
                rest,
                max_width as nat,
            ).map_values(join));
        }
        out.push(line);
        i = next;
    }
    proof {
        assert(all.skip(i as int) =~= Seq::<Seq<char>>::empty());
        assert(text::strings(out@) + line_groups(all.skip(i as int), max_width as nat).map_values(
            join,
        ) =~= text::strings(out@));
    }
    out
}

proof fn lemma_fitting_stops(words: Seq<Seq<char>>, k: int, max: nat)
    requires
        1 <= k <= words.len(),
    ensures
        ({
            let n = k + fitting(words.skip(k), columns(words.take(k)), max);
            &&& n <= words.len()
            &&& n < words.len() ==> columns(words.take(n)) + 1 + display_width(words[n]) > max
        }),
    decreases words.len() - k,
{
    let used = columns(words.take(k));
    let rest = words.skip(k);
    if rest.len() > 0 && used + 1 + display_width(rest[0]) <= max {
        assert(words.take(k + 1).drop_last() =~= words.take(k));
        assert(words.take(k + 1).last() == rest[0]);
        assert(columns(words.take(k + 1)) == used + 1 + display_width(rest[0]));
        assert(rest.skip(1) =~= words.skip(k + 1));
        lemma_fitting_stops(words, k + 1, max);
    }
}

/// A line ends only where the next word would not fit on it any more, and none is empty.
pub proof fn law_wrapped_lines_are_filled(words: Seq<Seq<char>>, max: nat, i: int)
    requires
        0 <= i < line_groups(words, max).len(),
    ensures
        line_groups(words, max)[i].len() > 0,
        i + 1 < line_groups(words, max).len() ==> columns(line_groups(words, max)[i]) + 1
            + display_width(line_groups(words, max)[i + 1][0]) > max,
    decreases words.len(),
{
    let n = first_line(words, max) as int;
    lemma_fitting(words.skip(1), display_width(words[0]), max);
    let all = line_groups(words, max);
    let rest = line_groups(words.skip(n), max);
    assert(words.take(1)[0] == words[0]);
    assert(columns(words.take(1)) == display_width(words[0]));
    lemma_fitting_stops(words, 1, max);
    if i > 0 {
        assert(all[i] == rest[i - 1]);
        law_wrapped_lines_are_filled(words.skip(n), max, i - 1);
        if i + 1 < all.len() {
            assert(all[i + 1] == rest[i]);
        }
    } else {
        assert(all[0] == words.take(n));
        if all.len() > 1 {
            assert(all[1] == rest[0]);
            let m = first_line(words.skip(n), max) as int;
            lemma_fitting(words.skip(n).skip(1), display_width(words.skip(n)[0]), max);
            assert(rest[0] == words.skip(n).take(m));
            assert(rest[0][0] == words[n]);
        }
    }
}

/// The columns of a line are those of its words and one for each blank between them: for words of
/// one column each character, as many as the line has characters.
pub proof fn law_columns_are_those_of_the_line(ws: Seq<Seq<char>>, w: Seq<char>)
    requires
        forall|i: int| 0 <= i < ws.len() ==> display_width(#[trigger] ws[i]) == ws[i].len(),
    ensures
        columns(ws) == joined(ws).len(),
        columns(seq![w]) == display_width(w),
        ws.len() > 0 ==> columns(ws.push(w)) == columns(ws) + 1 + display_width(w),
        ws.len() > 0 ==> joined(ws.push(w)) == joined(ws) + seq![' '] + w,
        joined(seq![w]) == w,
    decreases ws.len(),
{
    assert(ws.push(w).drop_last() =~= ws);
    if ws.len() > 1 {
        assert forall|i: int| 0 <= i < ws.drop_last().len() implies display_width(
            #[trigger] ws.drop_last()[i],
        ) == ws.drop_last()[i].len() by {
            assert(display_width(ws[i]) == ws[i].len());
        }
        law_columns_are_those_of_the_line(ws.drop_last(), w);
        assert(display_width(ws[ws.len() - 1]) == ws[ws.len() - 1].len());
    } else if ws.len() == 1 {
        assert(display_width(ws[0]) == ws[0].len());
    }
}

/// A text is wrapped by its words; a text without any, or where there is no room, is one empty line.
pub proof fn law_texts_are_wrapped_by_words(s: Seq<char>, max: nat)
    ensures
        max == 0 || lines::words(s).len() == 0 ==> wrapped(s, max) == seq![Seq::<char>::empty()],
        max > 0 && lines::words(s).len() > 0 ==> wrapped(s, max).len() == line_groups(
            lines::words(s),
            max,
        ).len() && forall|i: int|
            0 <= i < wrapped(s, max).len() ==> #[trigger] wrapped(s, max)[i] == joined(
                line_groups(lines::words(s), max)[i],
            ),
{
}

/// A text moves the drawing position by its width, up to what a coordinate can tell; one more
/// starts anew.
pub proof fn law_texts_move_by_their_width(s: Seq<char>)
    ensures
        display_width(s) < 0x1_0000 ==> advance(s) == display_width(s),
        0x1_0000 <= display_width(s) < 0x2_0000 ==> advance(s) == display_width(s) - 0x1_0000,
{
}

} // verus!
