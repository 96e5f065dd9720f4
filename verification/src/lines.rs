//! Lines, words and fields of a text.

use vstd::prelude::*;

use crate::text;
use crate::text::{find_char, piece};

verus! {

// ---------------------------------------------------------------------------------------------
// Lines
// ---------------------------------------------------------------------------------------------

/// `s` without one carriage return at its end.
pub open spec fn without_cr(s: Seq<char>) -> Seq<char> {
    if s.len() > 0 && s.last() == '\r' {
        s.drop_last()
    } else {
        s
    }
}

/// The lines of `s`. A line ends at a line feed, which may have a carriage return before it;
/// neither belongs to the line. The last line needs no ending.
pub open spec fn lines(s: Seq<char>) -> Seq<Seq<char>>
    decreases s.len(),
    via lines_decreases
{
    if s.len() == 0 {
        Seq::empty()
    } else {
        let k = text::first_at(s, '\n');
        if k >= s.len() {
            seq![s]
        } else {
            seq![without_cr(s.take(k))] + lines(s.skip(k + 1))
        }
    }
}

#[via_fn]
proof fn lines_decreases(s: Seq<char>) {
    text::lemma_first_at(s, '\n');
}

/// The lines of `t`.
pub fn split_lines(t: &Vec<char>) -> (r: Vec<Vec<char>>)
    ensures
        text::texts(r@) == lines(t@),
{
    let mut out: Vec<Vec<char>> = Vec::new();
    let mut i: usize = 0;
    proof {
        assert(t@.skip(0) =~= t@);
        assert(text::texts(out@) + lines(t@) =~= lines(t@));
    }
    while i < t.len()
        invariant
            i <= t@.len(),
            text::texts(out@) + lines(t@.skip(i as int)) == lines(t@),
        decreases t@.len() - i,
    {
        let k = find_char(t, i, '\n');
        let ghost rest = t@.skip(i as int);
        let ghost done = text::texts(out@);
        proof {
            text::lemma_first_at(rest, '\n');
        }
        if k == t.len() {
            let line = piece(t, i, k);
            proof {
                assert(line@ =~= rest);
                text::lemma_texts_push(out@, line);
                assert(lines(rest) =~= seq![rest]);
                assert(done.push(rest) =~= done + seq![rest]);
            }
            out.push(line);
            i = k;
            proof {
                assert(t@.skip(i as int) =~= Seq::<char>::empty());
                assert(text::texts(out@) + lines(t@.skip(i as int)) =~= text::texts(out@));
            }
        } else {
            let end = if k > i && t[k - 1] == '\r' { k - 1 } else { k };
            let line = piece(t, i, end);
            proof {
                let head = rest.take(k - i);
                assert(head =~= t@.subrange(i as int, k as int));
                assert(line@ =~= without_cr(head));
                text::lemma_texts_push(out@, line);
                assert(rest.skip(k - i + 1) =~= t@.skip(k + 1));
                assert(done.push(line@) + lines(t@.skip(k + 1)) =~= done + (seq![line@] + lines(
                    t@.skip(k + 1),
                )));
            }
            out.push(line);
            i = k + 1;
        }
    }
    proof {
        assert(t@.skip(i as int) =~= Seq::<char>::empty());
        assert(text::texts(out@) + lines(t@.skip(i as int)) =~= text::texts(out@));
    }
    out
}

// ---------------------------------------------------------------------------------------------
// White space and words
// ---------------------------------------------------------------------------------------------

/// The characters with the Unicode property `White_Space`.
pub open spec fn is_white(c: char) -> bool {
    ||| 0x09 <= c as u32 <= 0x0d
    ||| c as u32 == 0x20
    ||| c as u32 == 0x85
    ||| c as u32 == 0xa0
    ||| c as u32 == 0x1680
    ||| 0x2000 <= c as u32 <= 0x200a
    ||| c as u32 == 0x2028
    ||| c as u32 == 0x2029
    ||| c as u32 == 0x202f
    ||| c as u32 == 0x205f
    ||| c as u32 == 0x3000
}

/// Whether `c` has the Unicode property `White_Space`.
pub fn is_whitespace(c: char) -> (r: bool)
    ensures
        r == is_white(c),
{
    let u: u32 = c as u32;
    (0x09 <= u && u <= 0x0d) || u == 0x20 || u == 0x85 || u == 0xa0 || u == 0x1680 || (0x2000 <= u
        && u <= 0x200a) || u == 0x2028 || u == 0x2029 || u == 0x202f || u == 0x205f || u == 0x3000
}

/// How many characters of `s` come before its first white space.
pub open spec fn word_len(s: Seq<char>) -> int
    decreases s.len(),
{
    if s.len() == 0 || is_white(s[0]) {
        0
    } else {
        1 + word_len(s.skip(1))
    }
}

/// The words of `s`: its longest pieces without white space, in order.
pub open spec fn words(s: Seq<char>) -> Seq<Seq<char>>
    decreases s.len(),
    via words_decreases
{
    if s.len() == 0 {
        Seq::empty()
    } else if is_white(s[0]) {
        words(s.skip(1))
    } else {
        seq![s.take(word_len(s))] + words(s.skip(word_len(s)))
    }
}

#[via_fn]
proof fn words_decreases(s: Seq<char>) {
    lemma_word_len(s);
}

pub proof fn lemma_word_len(s: Seq<char>)
    ensures
        0 <= word_len(s) <= s.len(),
        s.len() > 0 && !is_white(s[0]) ==> word_len(s) > 0,
        word_len(s) < s.len() ==> is_white(s[word_len(s)]),
        forall|i: int| 0 <= i < word_len(s) ==> !is_white(s[i]),
    decreases s.len(),
{
    if s.len() == 0 || is_white(s[0]) {
    } else {
        lemma_word_len(s.skip(1));
        assert forall|i: int| 0 <= i < word_len(s) implies !is_white(s[i]) by {
            if i > 0 {
                assert(s[i] == s.skip(1)[i - 1]);
            }
        }
    }
}

proof fn lemma_word_len_is(s: Seq<char>, k: int)
    requires
        0 <= k <= s.len(),
        k < s.len() ==> is_white(s[k]),
        forall|i: int| 0 <= i < k ==> !is_white(s[i]),
    ensures
        word_len(s) == k,
{
    lemma_word_len(s);
}

/// A word and what follows it, which starts with white space, are that word and the words of the
/// rest.
pub proof fn lemma_word_then(w: Seq<char>, rest: Seq<char>)
    requires
        w.len() > 0,
        forall|i: int| 0 <= i < w.len() ==> !is_white(#[trigger] w[i]),
        rest.len() == 0 || is_white(rest[0]),
    ensures
        words(w + rest) == seq![w] + words(rest),
{
    let s = w + rest;
    assert(s[0] == w[0]);
    lemma_word_len(s);
    let k = word_len(s);
    assert(k == w.len()) by {
        if k < w.len() {
            assert(s[k] == w[k]);
        }
        if k > w.len() {
            assert(s[w.len() as int] == rest[0]);
        }
    }
    assert(s.take(k) =~= w);
    assert(s.skip(k) =~= rest);
}

/// The words of `t`.
pub fn split_words(t: &Vec<char>) -> (r: Vec<Vec<char>>)
    ensures
        text::texts(r@) == words(t@),
{
    let mut out: Vec<Vec<char>> = Vec::new();
    let mut i: usize = 0;
    proof {
        assert(t@.skip(0) =~= t@);
        assert(text::texts(out@) + words(t@) =~= words(t@));
    }
    while i < t.len()
        invariant
            i <= t@.len(),
            text::texts(out@) + words(t@.skip(i as int)) == words(t@),
        decreases t@.len() - i,
    {
        let ghost rest = t@.skip(i as int);
        if is_whitespace(t[i]) {
            i = i + 1;
            proof {
                assert(rest.skip(1) =~= t@.skip(i as int));
            }
        } else {
            let start = i;
            while i < t.len() && !is_whitespace(t[i])
                invariant
                    start <= i <= t@.len(),
                    forall|k: int| start <= k < i ==> !is_white(t@[k]),
                decreases t@.len() - i,
            {
                i = i + 1;
            }
            let word = piece(t, start, i);
            proof {
                lemma_word_len_is(rest, i - start);
                assert(rest.take(i - start) =~= word@);
                assert(rest.skip(i - start) =~= t@.skip(i as int));
                assert(!is_white(rest[0]));
                text::lemma_texts_push(out@, word);
                assert(text::texts(out@).push(word@) + words(t@.skip(i as int)) =~= text::texts(out@) + (seq![
                    word@,
                ] + words(t@.skip(i as int))));
            }
            out.push(word);
            proof {
                lemma_word_len(rest);
            }
        }
    }
    proof {
        assert(t@.skip(i as int) =~= Seq::<char>::empty());
        assert(text::texts(out@) + words(t@.skip(i as int)) =~= text::texts(out@));
    }
    out
}

/// `s` without the white space at its start.
pub open spec fn trim_start_of(s: Seq<char>) -> Seq<char>
    decreases s.len(),
{
    if s.len() > 0 && is_white(s[0]) {
        trim_start_of(s.skip(1))
    } else {
        s
    }
}

/// `s` without the white space at its end.
pub open spec fn trim_end_of(s: Seq<char>) -> Seq<char>
    decreases s.len(),
{
    if s.len() > 0 && is_white(s.last()) {
        trim_end_of(s.drop_last())
    } else {
        s
    }
}

/// `s` without the white space at either end.
pub open spec fn trim_of(s: Seq<char>) -> Seq<char> {
    trim_end_of(trim_start_of(s))
}

/// `t` without the white space at its start.
pub fn trim_start(t: &Vec<char>) -> (r: Vec<char>)
    ensures
        r@ == trim_start_of(t@),
{
    let mut i: usize = 0;
    proof {
        assert(t@.skip(0) =~= t@);
    }
    while i < t.len() && is_whitespace(t[i])
        invariant
            i <= t@.len(),
            trim_start_of(t@.skip(i as int)) == trim_start_of(t@),
        decreases t@.len() - i,
    {
        proof {
            assert(t@.skip(i as int).skip(1) =~= t@.skip(i + 1));
            assert(t@.skip(i as int)[0] == t@[i as int]);
        }
        i = i + 1;
    }
    let r = piece(t, i, t.len());
    proof {
        assert(r@ =~= t@.skip(i as int));
        if i < t@.len() {
            assert(t@.skip(i as int)[0] == t@[i as int]);
        }
    }
    r
}

/// `t` without the white space at either end.
pub fn trim(t: &Vec<char>) -> (r: Vec<char>)
    ensures
        r@ == trim_of(t@),
{
    let s = trim_start(t);
    let mut n: usize = s.len();
    proof {
        assert(s@.take(n as int) =~= s@);
    }
    while n > 0 && is_whitespace(s[n - 1])
        invariant
            n <= s@.len(),
            trim_end_of(s@.take(n as int)) == trim_end_of(s@),
        decreases n,
    {
        proof {
            assert(s@.take(n as int).drop_last() =~= s@.take(n - 1));
            assert(s@.take(n as int).last() == s@[n - 1]);
        }
        n = n - 1;
    }
    let r = piece(&s, 0, n);
    proof {
        assert(r@ =~= s@.take(n as int));
        if n > 0 {
            assert(s@.take(n as int).last() == s@[n - 1]);
        }
    }
    r
}

// ---------------------------------------------------------------------------------------------
// Fields
// ---------------------------------------------------------------------------------------------

/// The pieces of `s` between the occurrences of `c`, at most `limit` of them: the last piece
/// allowed takes all that is left.
pub open spec fn fields(s: Seq<char>, c: char, limit: nat) -> Seq<Seq<char>>
    decreases limit,
{
    let k = text::first_at(s, c);
    if limit == 0 {
        Seq::empty()
    } else if limit == 1 || k >= s.len() {
        seq![s]
    } else {
        seq![s.take(k)] + fields(s.skip(k + 1), c, (limit - 1) as nat)
    }
}

/// The pieces of `s` between the occurrences of `c`.
pub open spec fn all_fields(s: Seq<char>, c: char) -> Seq<Seq<char>>
    decreases s.len(),
    via all_fields_decreases
{
    let k = text::first_at(s, c);
    if k >= s.len() {
        seq![s]
    } else {
        seq![s.take(k)] + all_fields(s.skip(k + 1), c)
    }
}

#[via_fn]
proof fn all_fields_decreases(s: Seq<char>, c: char) {
    text::lemma_first_at(s, c);
}

/// The fields of `t` at the separator `c`.
pub fn split_all_fields(t: &Vec<char>, c: char) -> (r: Vec<Vec<char>>)
    ensures
        text::texts(r@) == all_fields(t@, c),
        r@.len() > 0,
{
    let mut out: Vec<Vec<char>> = Vec::new();
    let mut i: usize = 0;
    proof {
        assert(t@.skip(0) =~= t@);
        assert(text::texts(out@) + all_fields(t@, c) =~= all_fields(t@, c));
    }
    loop
        invariant
            i <= t@.len(),
            text::texts(out@) + all_fields(t@.skip(i as int), c) == all_fields(t@, c),
        decreases t@.len() - i,
    {
        let k = find_char(t, i, c);
        let ghost rest = t@.skip(i as int);
        proof {
            text::lemma_first_at(rest, c);
        }
        let field = piece(t, i, k);
        proof {
            text::lemma_texts_push(out@, field);
            assert(field@ =~= rest.take(k - i));
        }
        if k == t.len() {
            proof {
                assert(field@ =~= rest);
                assert(text::texts(out@).push(field@) =~= text::texts(out@) + seq![field@]);
            }
            out.push(field);
            return out;
        }
        proof {
            assert(rest.skip(k - i + 1) =~= t@.skip(k + 1));
            assert(text::texts(out@).push(field@) + all_fields(t@.skip(k + 1), c) =~= text::texts(
                out@,
            ) + (seq![field@] + all_fields(t@.skip(k + 1), c)));
        }
        out.push(field);
        i = k + 1;
    }
}

/// The fields of `t` at the separator `c`, at most `limit` of them.
pub fn split_fields(t: &Vec<char>, c: char, limit: usize) -> (r: Vec<Vec<char>>)
    ensures
        text::texts(r@) == fields(t@, c, limit as nat),
{
    let mut out: Vec<Vec<char>> = Vec::new();
    if limit == 0 {
        assert(text::texts(out@) =~= fields(t@, c, 0));
        return out;
    }
    let mut i: usize = 0;
    let mut left: usize = limit;
    proof {
        assert(t@.skip(0) =~= t@);
        assert(text::texts(out@) + fields(t@, c, limit as nat) =~= fields(t@, c, limit as nat));
    }
    while left > 1
        invariant
            i <= t@.len(),
            1 <= left <= limit,
            text::texts(out@) + fields(t@.skip(i as int), c, left as nat) == fields(t@, c, limit as nat),
        decreases left,
    {
        let k = find_char(t, i, c);
        let ghost rest = t@.skip(i as int);
        proof {
            text::lemma_first_at(rest, c);
        }
        if k == t.len() {
            let last = piece(t, i, k);
            proof {
                assert(last@ =~= rest);
                text::lemma_texts_push(out@, last);
                assert(text::texts(out@).push(last@) =~= text::texts(out@) + seq![last@]);
            }
            out.push(last);
            return out;
        }
        let field = piece(t, i, k);
        proof {
            assert(field@ =~= rest.take(k - i));
            assert(rest.skip(k - i + 1) =~= t@.skip(k + 1));
            text::lemma_texts_push(out@, field);
            assert(text::texts(out@).push(field@) + fields(t@.skip(k + 1), c, (left - 1) as nat)
                =~= text::texts(out@) + (seq![field@] + fields(t@.skip(k + 1), c, (left - 1) as nat)));
        }
        out.push(field);
        i = k + 1;
        left = left - 1;
    }
    let last = piece(t, i, t.len());
    proof {
        assert(last@ =~= t@.skip(i as int));
        text::lemma_texts_push(out@, last);
        assert(text::texts(out@).push(last@) =~= text::texts(out@) + seq![last@]);
    }
    out.push(last);
    out
}

// ---------------------------------------------------------------------------------------------
// Laws
// ---------------------------------------------------------------------------------------------

/// A line that ends in a line feed, or in a carriage return and a line feed, is followed by the
/// lines of the rest.
pub proof fn law_line_ends(line: Seq<char>, rest: Seq<char>)
    requires
        forall|i: int| 0 <= i < line.len() ==> line[i] != '\n' && line[i] != '\r',
    ensures
        lines(line + seq!['\n'] + rest) == seq![line] + lines(rest),
        lines(line + seq!['\r', '\n'] + rest) == seq![line] + lines(rest),
        line.len() > 0 ==> lines(line) == seq![line],
        lines(Seq::<char>::empty()).len() == 0,
{
    let s = line + seq!['\n'] + rest;
    let n = line.len() as int;
    text::lemma_first_at_is(s, '\n', n);
    assert(s.take(n) =~= line);
    assert(s.skip(n + 1) =~= rest);
    assert(without_cr(line) == line);
    let t = line + seq!['\r', '\n'] + rest;
    assert(t[n] == '\r' && t[n + 1] == '\n');
    text::lemma_first_at_is(t, '\n', n + 1);
    assert(t.take(n + 1).drop_last() =~= line);
    assert(t.skip(n + 2) =~= rest);
    assert(without_cr(t.take(n + 1)) =~= line);
    text::lemma_first_at_is(line, '\n', n);
}

/// Words with one blank before each are read as they are.
pub proof fn law_words_are_cut_at_blanks(w: Seq<char>, rest: Seq<char>)
    requires
        w.len() > 0,
        forall|i: int| 0 <= i < w.len() ==> !is_white(#[trigger] w[i]),
    ensures
        words(w + seq![' '] + rest) == seq![w] + words(rest),
        words(w) == seq![w],
        words(seq![' '] + rest) == words(rest),
        words(seq!['\t'] + rest) == words(rest),
        words(Seq::<char>::empty()).len() == 0,
{
    let blank = seq![' '] + rest;
    let tab = seq!['\t'] + rest;
    assert(w + seq![' '] + rest =~= w + blank);
    assert(is_white(' '));
    lemma_word_then(w, blank);
    assert(blank.skip(1) =~= rest);
    assert(tab.skip(1) =~= rest);
    let none = Seq::<char>::empty();
    lemma_word_then(w, none);
    assert(w + none =~= w);
    assert(seq![w] + words(none) =~= seq![w]);
}

/// White space at either end goes, and nothing else.
pub proof fn law_trimming_takes_white_ends(before: Seq<char>, s: Seq<char>, after: Seq<char>)
    requires
        forall|i: int| 0 <= i < before.len() ==> is_white(#[trigger] before[i]),
        forall|i: int| 0 <= i < after.len() ==> is_white(#[trigger] after[i]),
        s.len() > 0,
        !is_white(s[0]),
        !is_white(s.last()),
    ensures
        trim_of(before + s + after) == s,
    decreases before.len() + after.len(),
{
    let all = before + s + after;
    if before.len() > 0 {
        assert(all[0] == before[0]);
        let less = before.skip(1);
        assert(all.skip(1) =~= less + s + after);
        assert forall|i: int| 0 <= i < less.len() implies is_white(#[trigger] less[i]) by {
            assert(less[i] == before[i + 1]);
        }
        law_trimming_takes_white_ends(less, s, after);
    } else if after.len() > 0 {
        assert(all[0] == s[0]);
        assert(trim_start_of(all) == all);
        assert(all.last() == after.last());
        let less = after.drop_last();
        assert(all.drop_last() =~= before + s + less);
        assert forall|i: int| 0 <= i < less.len() implies is_white(#[trigger] less[i]) by {
            assert(less[i] == after[i]);
        }
        law_trimming_takes_white_ends(before, s, less);
        assert(trim_start_of(all.drop_last()) == all.drop_last());
    } else {
        assert(all =~= s);
    }
}

/// A field ends at the separator; the last field that is asked for takes all that is left.
pub proof fn law_fields_end_at_the_separator(a: Seq<char>, c: char, rest: Seq<char>, limit: nat)
    requires
        forall|i: int| 0 <= i < a.len() ==> a[i] != c,
        limit >= 2,
    ensures
        fields(a + seq![c] + rest, c, limit) == seq![a] + fields(rest, c, (limit - 1) as nat),
        fields(a, c, limit) == seq![a],
        fields(rest, c, 1) == seq![rest],
        all_fields(a + seq![c] + rest, c) == seq![a] + all_fields(rest, c),
        all_fields(a, c) == seq![a],
{
    let s = a + seq![c] + rest;
    let n = a.len() as int;
    text::lemma_first_at_is(s, c, n);
    assert(s.take(n) =~= a);
    assert(s.skip(n + 1) =~= rest);
    text::lemma_first_at_is(a, c, n);
}

/// White are the blank, the tab and what ends a line; no other character of ASCII is.
pub proof fn law_white_characters(c: char)
    ensures
        is_white(' '),
        is_white('\t'),
        is_white('\n'),
        is_white('\r'),
        c as u32 <= 0x7f && is_white(c) ==> c == ' ' || 9 <= c as u32 <= 13,
        9 <= c as u32 <= 13 ==> is_white(c),
        is_white('\u{85}'),
        is_white('\u{a0}'),
        is_white('\u{1680}'),
        is_white('\u{2000}'),
        is_white('\u{200a}'),
        is_white('\u{2028}'),
        is_white('\u{2029}'),
        is_white('\u{202f}'),
        is_white('\u{205f}'),
        is_white('\u{3000}'),
        is_white(c) && c as u32 > 0xa0 ==> c as u32 == 0x1680 || 0x2000 <= c as u32 <= 0x200a
            || 0x2028 <= c as u32 <= 0x2029 || c as u32 == 0x202f || c as u32 == 0x205f || c as u32
            == 0x3000,
{
}

} // verus!
