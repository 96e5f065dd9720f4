//! Text as sequences of characters: the pieces of line, word and number handling that the parsers
//! and views are built from.

use vstd::prelude::*;

verus! {

broadcast use vstd::string::group_string_axioms;

/// `String::push` of the standard library: appends one character to the end of the string.
pub assume_specification[ String::push ](s: &mut String, c: char)
    ensures
        final(s)@ == old(s)@.push(c),
;

/// The characters that each of the vectors holds.
pub open spec fn texts(v: Seq<Vec<char>>) -> Seq<Seq<char>> {
    v.map_values(|t: Vec<char>| t@)
}

/// The characters that each of the strings holds.
pub open spec fn strings(v: Seq<String>) -> Seq<Seq<char>> {
    v.map_values(|t: String| t@)
}

/// The characters behind an optional vector.
pub open spec fn opt_text(o: Option<Vec<char>>) -> Option<Seq<char>> {
    match o {
        Some(t) => Some(t@),
        None => None,
    }
}

/// The characters behind an optional string.
pub open spec fn opt_string(o: Option<String>) -> Option<Seq<char>> {
    match o {
        Some(t) => Some(t@),
        None => None,
    }
}

pub proof fn lemma_texts_push(v: Seq<Vec<char>>, t: Vec<char>)
    ensures
        texts(v.push(t)) == texts(v).push(t@),
{
    assert(texts(v.push(t)) =~= texts(v).push(t@));
}

pub proof fn lemma_strings_push(v: Seq<String>, t: String)
    ensures
        strings(v.push(t)) == strings(v).push(t@),
{
    assert(strings(v.push(t)) =~= strings(v).push(t@));
}

/// The characters of `s`, in order.
pub fn chars_of(s: &str) -> (r: Vec<char>)
    ensures
        r@ == s@,
{
    let mut out: Vec<char> = Vec::new();
    for c in it: s.chars()
        invariant
            it.seq() == s@,
            out@ == s@.take(it.index() as int),
    {
        proof {
            assert(s@.take(it.index() + 1) =~= s@.take(it.index() as int).push(c));
        }
        out.push(c);
    }
    proof {
        assert(s@.take(s@.len() as int) =~= s@);
    }
    out
}

/// The characters `from..to` of `t` as a string.
pub fn string_between(t: &Vec<char>, from: usize, to: usize) -> (r: String)
    requires
        from <= to <= t@.len(),
    ensures
        r@ == t@.subrange(from as int, to as int),
{
    let mut out: String = String::new();
    let mut i: usize = from;
    while i < to
        invariant
            from <= i <= to <= t@.len(),
            out@ == t@.subrange(from as int, i as int),
        decreases to - i,
    {
        out.push(t[i]);
        i = i + 1;
        proof {
            assert(t@.subrange(from as int, i as int) =~= t@.subrange(from as int, i - 1).push(t@[i - 1]));
        }
    }
    out
}

/// All of `t` as a string.
pub fn string_of(t: &Vec<char>) -> (r: String)
    ensures
        r@ == t@,
{
    let r = string_between(t, 0, t.len());
    proof {
        assert(t@.subrange(0, t@.len() as int) =~= t@);
    }
    r
}

/// The characters `from..to` of `t`.
pub fn piece(t: &Vec<char>, from: usize, to: usize) -> (r: Vec<char>)
    requires
        from <= to <= t@.len(),
    ensures
        r@ == t@.subrange(from as int, to as int),
{
    let mut out: Vec<char> = Vec::new();
    let mut i: usize = from;
    while i < to
        invariant
            from <= i <= to <= t@.len(),
            out@ == t@.subrange(from as int, i as int),
        decreases to - i,
    {
        out.push(t[i]);
        i = i + 1;
        proof {
            assert(t@.subrange(from as int, i as int) =~= t@.subrange(from as int, i - 1).push(t@[i - 1]));
        }
    }
    out
}

/// Appends all of `more` to `t`.
pub fn extend(t: &mut Vec<char>, more: &Vec<char>)
    ensures
        final(t)@ == old(t)@ + more@,
{
    let ghost start = t@;
    let mut i: usize = 0;
    proof {
        assert(more@.take(0) =~= Seq::<char>::empty());
        assert(start + more@.take(0) =~= start);
    }
    while i < more.len()
        invariant
            i <= more@.len(),
            t@ == start + more@.take(i as int),
        decreases more@.len() - i,
    {
        t.push(more[i]);
        i = i + 1;
        proof {
            assert(start + more@.take(i as int) =~= (start + more@.take(i - 1)).push(more@[i - 1]));
        }
    }
    proof {
        assert(more@.take(i as int) =~= more@);
    }
}

/// Appends all of `more` to `t`.
pub fn extend_str(t: &mut Vec<char>, more: &str)
    ensures
        final(t)@ == old(t)@ + more@,
{
    let m = chars_of(more);
    extend(t, &m);
}

/// Whether the two vectors hold the same characters.
pub fn same(a: &Vec<char>, b: &Vec<char>) -> (r: bool)
    ensures
        r == (a@ == b@),
{
    if a.len() != b.len() {
        return false;
    }
    let mut i: usize = 0;
    while i < a.len()
        invariant
            i <= a@.len(),
            a@.len() == b@.len(),
            forall|k: int| 0 <= k < i ==> a@[k] == b@[k],
        decreases a@.len() - i,
    {
        if a[i] != b[i] {
            return false;
        }
        i = i + 1;
    }
    proof {
        assert(a@ =~= b@);
    }
    true
}

/// Whether the two strings hold the same characters.
pub fn same_str(a: &str, b: &str) -> (r: bool)
    ensures
        r == (a@ == b@),
{
    let x = chars_of(a);
    let y = chars_of(b);
    same(&x, &y)
}

// ---------------------------------------------------------------------------------------------
// Prefixes and searching
// ---------------------------------------------------------------------------------------------

/// Whether `s` starts with `p`.
pub open spec fn has_prefix(s: Seq<char>, p: Seq<char>) -> bool {
    p.len() <= s.len() && s.take(p.len() as int) == p
}

/// The position of the first `c` in `s`, or the length of `s` where there is none.
pub open spec fn first_at(s: Seq<char>, c: char) -> int
    decreases s.len(),
{
    if s.len() == 0 || s[0] == c {
        0
    } else {
        1 + first_at(s.skip(1), c)
    }
}

/// The first position at which `p` occurs in `s`.
pub open spec fn first_match(s: Seq<char>, p: Seq<char>) -> Option<int>
    decreases s.len(),
{
    if has_prefix(s, p) {
        Some(0)
    } else if s.len() == 0 {
        None
    } else {
        match first_match(s.skip(1), p) {
            Some(i) => Some(i + 1),
            None => None,
        }
    }
}

/// `first_at` is the least position of the character.
pub proof fn lemma_first_at(s: Seq<char>, c: char)
    ensures
        0 <= first_at(s, c) <= s.len(),
        first_at(s, c) < s.len() ==> s[first_at(s, c)] == c,
        forall|i: int| 0 <= i < first_at(s, c) ==> s[i] != c,
    decreases s.len(),
{
    if s.len() == 0 || s[0] == c {
    } else {
        lemma_first_at(s.skip(1), c);
        assert forall|i: int| 0 <= i < first_at(s, c) implies s[i] != c by {
            if i > 0 {
                assert(s[i] == s.skip(1)[i - 1]);
            }
        }
    }
}

/// A position with the properties of `first_at` is `first_at`.
pub proof fn lemma_first_at_is(s: Seq<char>, c: char, k: int)
    requires
        0 <= k <= s.len(),
        k < s.len() ==> s[k] == c,
        forall|i: int| 0 <= i < k ==> s[i] != c,
    ensures
        first_at(s, c) == k,
{
    lemma_first_at(s, c);
}

/// A match lies inside the text, and no match comes before it.
pub proof fn lemma_first_match(s: Seq<char>, p: Seq<char>)
    ensures
        match first_match(s, p) {
            Some(i) => 0 <= i && i + p.len() <= s.len() && s.subrange(i, i + p.len()) == p
                && has_prefix(s.skip(i), p) && forall|j: int|
                0 <= j < i ==> !has_prefix(#[trigger] s.skip(j), p),
            None => forall|j: int| 0 <= j <= s.len() ==> !has_prefix(#[trigger] s.skip(j), p),
        },
    decreases s.len(),
{
    assert(s.skip(0) =~= s);
    if has_prefix(s, p) {
        assert(s.subrange(0, p.len() as int) =~= s.take(p.len() as int));
    } else if s.len() == 0 {
    } else {
        lemma_first_match(s.skip(1), p);
        match first_match(s.skip(1), p) {
            Some(i) => {
                assert(s.subrange(i + 1, i + 1 + p.len()) =~= s.skip(1).subrange(i, i + p.len()));
                assert(s.skip(i + 1) =~= s.skip(1).skip(i));
                assert forall|j: int| 0 <= j < i + 1 implies !has_prefix(#[trigger] s.skip(j), p) by {
                    if j > 0 {
                        assert(s.skip(j) =~= s.skip(1).skip(j - 1));
                    }
                }
            },
            None => {
                assert forall|j: int| 0 <= j <= s.len() implies !has_prefix(#[trigger] s.skip(j), p) by {
                    if j > 0 {
                        assert(s.skip(j) =~= s.skip(1).skip(j - 1));
                    }
                }
            },
        }
    }
}

/// Whether `t` starts with `p`.
pub fn starts_with(t: &Vec<char>, p: &str) -> (r: bool)
    ensures
        r == has_prefix(t@, p@),
{
    let q = chars_of(p);
    matches_at(t, 0, &q)
}

/// Whether the characters of `t` from position `at` start with `p`.
pub fn matches_at(t: &Vec<char>, at: usize, p: &Vec<char>) -> (r: bool)
    requires
        at <= t@.len(),
    ensures
        r == has_prefix(t@.skip(at as int), p@),
        at == 0 ==> r == has_prefix(t@, p@),
{
    proof {
        assert(t@.skip(0) =~= t@);
    }
    if p.len() > t.len() - at {
        return false;
    }
    let mut i: usize = 0;
    while i < p.len()
        invariant
            at + p@.len() <= t.len(),
            i <= p@.len(),
            forall|k: int| 0 <= k < i ==> t@[at + k] == p@[k],
        decreases p@.len() - i,
    {
        if t[at + i] != p[i] {
            proof {
                assert(t@.skip(at as int).take(p@.len() as int)[i as int] == t@[at + i]);
            }
            return false;
        }
        i = i + 1;
    }
    proof {
        assert(t@.skip(at as int).take(p@.len() as int) =~= p@);
    }
    true
}

/// The position of the first `c` in `t` at or after `from`, or the length of `t`.
pub fn find_char(t: &Vec<char>, from: usize, c: char) -> (r: usize)
    requires
        from <= t@.len(),
    ensures
        from <= r <= t@.len(),
        r == from + first_at(t@.skip(from as int), c),
{
    let mut i: usize = from;
    while i < t.len() && t[i] != c
        invariant
            from <= i <= t@.len(),
            forall|k: int| from <= k < i ==> t@[k] != c,
        decreases t@.len() - i,
    {
        i = i + 1;
    }
    proof {
        lemma_first_at_is(t@.skip(from as int), c, i - from);
    }
    i
}

/// The first position at or after `from` at which `p` occurs in `t`.
pub fn find_text(t: &Vec<char>, from: usize, p: &Vec<char>) -> (r: Option<usize>)
    requires
        from <= t@.len(),
    ensures
        match (r, first_match(t@.skip(from as int), p@)) {
            (Some(k), Some(i)) => k == from + i && k + p@.len() <= t@.len(),
            (None, None) => true,
            _ => false,
        },
{
    let ghost s = t@.skip(from as int);
    let mut i: usize = from;
    loop
        invariant
            from <= i <= t@.len(),
            s == t@.skip(from as int),
            forall|k: int| 0 <= k < i - from ==> !has_prefix(#[trigger] s.skip(k), p@),
        decreases t@.len() - i,
    {
        proof {
            assert(t@.skip(i as int) =~= s.skip(i - from));
            lemma_first_match(s, p@);
        }
        if matches_at(t, i, p) {
            proof {
                let m = first_match(s, p@);
                assert(m is Some);
                assert(has_prefix(s.skip(m->0), p@));
                assert(!(m->0 > i - from));
            }
            return Some(i);
        }
        if i == t.len() {
            return None;
        }
        i = i + 1;
    }
}

/// A text starts with its first part, whatever follows, and with nothing that differs from it.
pub proof fn law_texts_start_with_their_first_part(a: Seq<char>, b: Seq<char>, p: Seq<char>, i: int)
    ensures
        has_prefix(a + b, a),
        has_prefix(a, a),
        0 <= i < p.len() && (i >= a.len() || a[i] != p[i]) ==> !has_prefix(a, p),
{
    assert((a + b).take(a.len() as int) =~= a);
    assert(a.take(a.len() as int) =~= a);
    if 0 <= i < p.len() && has_prefix(a, p) {
        assert(a.take(p.len() as int)[i] == a[i]);
    }
}

/// What is searched for is found where it first stands: behind a text that does not hold any of its
/// first character it stands at once.
pub proof fn law_first_match_is_the_first(a: Seq<char>, p: Seq<char>, rest: Seq<char>)
    requires
        p.len() > 0,
        forall|i: int| 0 <= i < a.len() ==> a[i] != p[0],
    ensures
        first_match(a + p + rest, p) == Some(a.len() as int),
        first_match(a, p) is None,
    decreases a.len(),
{
    let all = a + p + rest;
    if a.len() == 0 {
        assert(all.take(p.len() as int) =~= p);
        assert(!has_prefix(a, p));
    } else {
        law_texts_start_with_their_first_part(all, rest, p, 0);
        law_texts_start_with_their_first_part(a, rest, p, 0);
        assert(all[0] == a[0]);
        assert(all.skip(1) =~= a.skip(1) + p + rest);
        law_first_match_is_the_first(a.skip(1), p, rest);
    }
}

/// The first of a character stands behind all that is not it.
pub proof fn law_first_character_is_the_first(a: Seq<char>, c: char, rest: Seq<char>)
    requires
        forall|i: int| 0 <= i < a.len() ==> a[i] != c,
    ensures
        first_at(a + seq![c] + rest, c) == a.len(),
        first_at(a, c) == a.len(),
{
    lemma_first_at_is(a + seq![c] + rest, c, a.len() as int);
    lemma_first_at_is(a, c, a.len() as int);
}

} // verus!
