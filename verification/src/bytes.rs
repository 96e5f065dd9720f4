//! Byte offsets into text: how long characters are in UTF-8, and which characters a byte offset
//! separates.

use vstd::prelude::*;

verus! {

/// How many bytes `c` takes in UTF-8.
pub open spec fn char_bytes(c: char) -> nat {
    vstd::utf8::encode_scalar(c as u32).len()
}

/// How many bytes `s` takes in UTF-8.
pub open spec fn byte_len(s: Seq<char>) -> nat {
    vstd::utf8::encode_utf8(s).len()
}

/// How many characters of `s` come before the byte offset `b`. `None` where `b` lies inside a
/// character or past the end.
pub open spec fn chars_before(s: Seq<char>, b: int) -> Option<int>
    decreases s.len(),
{
    if b == 0 {
        Some(0)
    } else if b < 0 || s.len() == 0 {
        None
    } else {
        match chars_before(s.skip(1), b - char_bytes(s[0])) {
            Some(k) => Some(k + 1),
            None => None,
        }
    }
}

/// Every character takes between one and four bytes.
pub proof fn lemma_char_bytes(c: char)
    ensures
        1 <= char_bytes(c) <= 4,
        char_bytes(c) == (if c as u32 <= 0x7f {
            1nat
        } else if c as u32 <= 0x7ff {
            2
        } else if c as u32 <= 0xffff {
            3
        } else {
            4
        }),
{
    vstd::utf8::char_is_scalar(c);
}

/// The length of a text is the sum of the lengths of its two parts.
pub proof fn lemma_byte_len_concat(a: Seq<char>, b: Seq<char>)
    ensures
        byte_len(a + b) == byte_len(a) + byte_len(b),
    decreases a.len(),
{
    if a.len() == 0 {
        assert(a + b =~= b);
    } else {
        assert((a + b).drop_first() =~= a.drop_first() + b);
        lemma_byte_len_concat(a.drop_first(), b);
    }
}

/// Adding a character adds its bytes.
pub proof fn lemma_byte_len_push(a: Seq<char>, c: char)
    ensures
        byte_len(a.push(c)) == byte_len(a) + char_bytes(c),
        byte_len(Seq::<char>::empty()) == 0,
{
    assert(a.push(c) =~= a + seq![c]);
    lemma_byte_len_concat(a, seq![c]);
    assert(seq![c].drop_first() =~= Seq::<char>::empty());
    assert(vstd::utf8::encode_utf8(Seq::<char>::empty()).len() == 0);
    assert(vstd::utf8::encode_utf8(seq![c]) =~= vstd::utf8::encode_scalar(c as u32) + vstd::utf8::encode_utf8(seq![c].drop_first()));
}

/// Bytes of a text: at least one for each character.
pub proof fn lemma_byte_len_bounds(s: Seq<char>)
    ensures
        s.len() <= byte_len(s) <= 4 * s.len(),
    decreases s.len(),
{
    if s.len() > 0 {
        lemma_byte_len_bounds(s.drop_first());
        lemma_char_bytes(s[0]);
        assert(vstd::utf8::encode_utf8(s) =~= vstd::utf8::encode_scalar(s[0] as u32) + vstd::utf8::encode_utf8(s.drop_first()));
    }
}

/// Two cuts of a text: the bytes before the first are a part of the bytes before the second.
pub proof fn lemma_byte_len_take(s: Seq<char>, j: int, k: int)
    requires
        0 <= j <= k <= s.len(),
    ensures
        byte_len(s.take(j)) + (k - j) <= byte_len(s.take(k)),
        byte_len(s.take(k)) <= byte_len(s),
{
    assert(s.take(k) =~= s.take(j) + s.subrange(j, k));
    lemma_byte_len_concat(s.take(j), s.subrange(j, k));
    lemma_byte_len_bounds(s.subrange(j, k));
    assert(s =~= s.take(k) + s.skip(k));
    lemma_byte_len_concat(s.take(k), s.skip(k));
}

/// A byte offset that separates characters is the length of the characters before it.
pub proof fn lemma_chars_before(s: Seq<char>, b: int)
    ensures
        match chars_before(s, b) {
            Some(k) => 0 <= k <= s.len() && byte_len(s.take(k)) == b,
            None => forall|k: int| 0 <= k <= s.len() ==> byte_len(#[trigger] s.take(k)) != b,
        },
    decreases s.len(),
{
    assert(s.take(0) =~= Seq::<char>::empty());
    assert(byte_len(Seq::<char>::empty()) == 0);
    if b == 0 {
    } else if b < 0 || s.len() == 0 {
        assert forall|k: int| 0 <= k <= s.len() implies byte_len(#[trigger] s.take(k)) != b by {
            if s.len() == 0 {
                assert(s.take(k) =~= Seq::<char>::empty());
            }
        }
    } else {
        let rest = s.skip(1);
        lemma_chars_before(rest, b - char_bytes(s[0]));
        assert forall|k: int| 1 <= k <= s.len() implies byte_len(#[trigger] s.take(k)) == char_bytes(
            s[0],
        ) + byte_len(rest.take(k - 1)) by {
            assert(s.take(k).drop_first() =~= rest.take(k - 1));
            assert(s.take(k)[0] == s[0]);
        }
        match chars_before(rest, b - char_bytes(s[0])) {
            Some(k) => {
                assert(byte_len(s.take(k + 1)) == b);
            },
            None => {
                assert forall|k: int| 0 <= k <= s.len() implies byte_len(#[trigger] s.take(k)) != b by {
                    if k > 0 {
                        assert(byte_len(rest.take(k - 1)) != b - char_bytes(s[0]));
                    }
                }
            },
        }
    }
}

/// The length of the first `k` characters separates those from the rest.
pub proof fn lemma_chars_before_take(s: Seq<char>, k: int)
    requires
        0 <= k <= s.len(),
    ensures
        chars_before(s, byte_len(s.take(k)) as int) == Some(k),
{
    let b = byte_len(s.take(k)) as int;
    lemma_chars_before(s, b);
    match chars_before(s, b) {
        Some(j) => {
            if j < k {
                lemma_byte_len_take(s, j, k);
            } else if k < j {
                lemma_byte_len_take(s, k, j);
            }
        },
        None => {},
    }
}

/// How many bytes `c` takes in UTF-8.
pub fn utf8_len(c: char) -> (r: usize)
    ensures
        r == char_bytes(c),
        1 <= r <= 4,
{
    proof {
        lemma_char_bytes(c);
    }
    let u: u32 = c as u32;
    if u <= 0x7f {
        1
    } else if u <= 0x7ff {
        2
    } else if u <= 0xffff {
        3
    } else {
        4
    }
}

/// How many characters of `t` come before the byte offset `b`.
pub fn char_index(t: &Vec<char>, b: usize) -> (r: Option<usize>)
    ensures
        match (r, chars_before(t@, b as int)) {
            (Some(k), Some(j)) => k == j && k <= t@.len(),
            (None, None) => true,
            _ => false,
        },
{
    let mut left: usize = b;
    let mut i: usize = 0;
    proof {
        assert(t@.skip(0) =~= t@);
        lemma_chars_before(t@, b as int);
    }
    while left > 0 && i < t.len()
        invariant
            i <= t@.len(),
            match (chars_before(t@.skip(i as int), left as int), chars_before(t@, b as int)) {
                (Some(k), Some(j)) => j == i + k,
                (None, None) => true,
                _ => false,
            },
        decreases t@.len() - i,
    {
        let n = utf8_len(t[i]);
        proof {
            assert(t@.skip(i as int).skip(1) =~= t@.skip(i + 1));
            assert(t@.skip(i as int)[0] == t@[i as int]);
        }
        if n > left {
            proof {
                assert(chars_before(t@.skip(i + 1), left - n) is None);
            }
            return None;
        }
        left = left - n;
        i = i + 1;
    }
    if left == 0 {
        Some(i)
    } else {
        proof {
            assert(t@.skip(i as int).len() == 0);
        }
        None
    }
}

/// The number of bytes that the characters `from..to` of `t` take.
pub fn bytes_between(t: &Vec<char>, from: usize, to: usize) -> (r: usize)
    requires
        from <= to <= t@.len(),
        byte_len(t@.subrange(from as int, to as int)) <= usize::MAX,
    ensures
        r == byte_len(t@.subrange(from as int, to as int)),
{
    let mut n: usize = 0;
    let mut i: usize = from;
    let ghost all = t@.subrange(from as int, to as int);
    proof {
        assert(all.take(0) =~= Seq::<char>::empty());
        lemma_byte_len_push(Seq::<char>::empty(), 'a');
    }
    while i < to
        invariant
            from <= i <= to <= t@.len(),
            all == t@.subrange(from as int, to as int),
            byte_len(all) <= usize::MAX,
            n == byte_len(all.take(i - from)),
        decreases to - i,
    {
        proof {
            assert(all.take(i - from + 1) =~= all.take(i - from).push(t@[i as int]));
            lemma_byte_len_push(all.take(i - from), t@[i as int]);
            lemma_byte_len_take(all, i - from + 1, i - from + 1);
        }
        n = n + utf8_len(t[i]);
        i = i + 1;
    }
    proof {
        assert(all.take(i - from) =~= all);
    }
    n
}

/// The text that a byte sequence is shown as: each piece that is not UTF-8 becomes a replacement
/// character.
pub uninterp spec fn utf8_lossy(bytes: Seq<u8>) -> Seq<char>;

/// `String::from_utf8_lossy` of the standard library. Bytes that are valid UTF-8 come back as the
/// characters they encode; what other bytes become is named, not spelled out.
#[verifier::external_body]
pub(crate) fn lossy_text(bytes: &[u8]) -> (r: String)
    ensures
        r@ == utf8_lossy(bytes@),
        vstd::utf8::valid_utf8(bytes@) ==> r@ == vstd::utf8::decode_utf8(bytes@),
{
    String::from_utf8_lossy(bytes).into_owned()
}

} // verus!
