//! Decimal numbers: reading them from text and writing them as text.

use vstd::prelude::*;

verus! {

/// Whether `c` is one of the ten decimal digits.
pub open spec fn is_digit(c: char) -> bool {
    '0' <= c <= '9'
}

/// Whether every character of `s` is a decimal digit.
pub open spec fn all_digits(s: Seq<char>) -> bool {
    forall|i: int| 0 <= i < s.len() ==> is_digit(#[trigger] s[i])
}

/// The number that a sequence of decimal digits stands for.
pub open spec fn digits_value(s: Seq<char>) -> nat
    decreases s.len(),
{
    if s.len() == 0 {
        0
    } else {
        digits_value(s.drop_last()) * 10 + ((s.last() as u32 - '0' as u32) as nat)
    }
}

/// The number that `s` writes in decimal, with an optional `+` before it.
pub open spec fn unsigned(s: Seq<char>) -> Option<nat> {
    let body = if s.len() > 0 && s[0] == '+' {
        s.skip(1)
    } else {
        s
    };
    if body.len() > 0 && all_digits(body) {
        Some(digits_value(body))
    } else {
        None
    }
}

/// The number that `s` writes in decimal, with an optional sign before it.
pub open spec fn signed(s: Seq<char>) -> Option<int> {
    if s.len() > 0 && s[0] == '-' {
        if s.len() > 1 && all_digits(s.skip(1)) {
            Some(-(digits_value(s.skip(1)) as int))
        } else {
            None
        }
    } else {
        match unsigned(s) {
            Some(n) => Some(n as int),
            None => None,
        }
    }
}

/// What [`parse_usize`] reads from `s`: its number where it has one that fits.
pub open spec fn usize_of(s: Seq<char>) -> Option<usize> {
    match unsigned(s) {
        Some(n) => if n <= usize::MAX {
            Some(n as usize)
        } else {
            None
        },
        None => None,
    }
}

/// What [`parse_i64`] reads from `s`: its number where it has one that fits.
pub open spec fn i64_of(s: Seq<char>) -> Option<i64> {
    match signed(s) {
        Some(n) => if i64::MIN <= n <= i64::MAX {
            Some(n as i64)
        } else {
            None
        },
        None => None,
    }
}

/// A longer row of digits stands for a number that is no smaller.
proof fn lemma_digits_value_prefix(s: Seq<char>, k: int)
    requires
        0 <= k <= s.len(),
        all_digits(s),
    ensures
        digits_value(s.take(k)) <= digits_value(s),
    decreases s.len(),
{
    if k == s.len() {
        assert(s.take(k) =~= s);
    } else {
        assert(s.drop_last().take(k) =~= s.take(k));
        assert forall|i: int| 0 <= i < s.drop_last().len() implies is_digit(#[trigger] s.drop_last()[i]) by {
            assert(s.drop_last()[i] == s[i]);
        }
        lemma_digits_value_prefix(s.drop_last(), k);
        assert(is_digit(s[s.len() - 1]));
    }
}

/// Reads the digits of `t` from position `from` on. `None` where there are none, where another
/// character stands among them, or where the number is larger than `max`.
fn read_digits(t: &Vec<char>, from: usize, max: u64) -> (r: Option<u64>)
    requires
        from <= t@.len(),
    ensures
        r == ({
            let body = t@.skip(from as int);
            if body.len() > 0 && all_digits(body) && digits_value(body) <= max {
                Some(digits_value(body) as u64)
            } else {
                None
            }
        }),
{
    if from == t.len() {
        return None;
    }
    let ghost body = t@.skip(from as int);
    let mut value: u64 = 0;
    let mut i: usize = from;
    proof {
        assert(body.take(0) =~= Seq::<char>::empty());
    }
    while i < t.len()
        invariant
            from <= i <= t@.len(),
            body == t@.skip(from as int),
            value == digits_value(body.take(i - from)),
            value <= max,
            forall|k: int| 0 <= k < i - from ==> is_digit(body[k]),
        decreases t@.len() - i,
    {
        let c: char = t[i];
        proof {
            assert(body[i - from] == c);
        }
        if c < '0' || c > '9' {
            proof {
                assert(!is_digit(body[i - from]));
            }
            return None;
        }
        let d: u64 = (c as u32 - '0' as u32) as u64;
        let wide: u128 = (value as u128) * 10 + (d as u128);
        proof {
            assert(body.take(i - from + 1).drop_last() =~= body.take(i - from));
            assert(body.take(i - from + 1).last() == c);
        }
        if wide > max as u128 {
            proof {
                if all_digits(body) {
                    lemma_digits_value_prefix(body, i - from + 1);
                }
            }
            return None;
        }
        value = wide as u64;
        i = i + 1;
    }
    proof {
        assert(body.take(i - from) =~= body);
    }
    Some(value)
}

/// Reads an unsigned decimal number.
pub fn parse_usize(t: &Vec<char>) -> (r: Option<usize>)
    ensures
        r == usize_of(t@),
{
    proof {
        assert(t@.skip(0) =~= t@);
    }
    let from: usize = if t.len() > 0 && t[0] == '+' { 1 } else { 0 };
    match read_digits(t, from, usize::MAX as u64) {
        Some(n) => Some(n as usize),
        None => None,
    }
}

/// Reads a decimal number with an optional sign.
pub fn parse_i64(t: &Vec<char>) -> (r: Option<i64>)
    ensures
        r == i64_of(t@),
{
    proof {
        assert(t@.skip(0) =~= t@);
    }
    if t.len() > 0 && t[0] == '-' {
        match read_digits(t, 1, 0x8000_0000_0000_0000) {
            Some(n) => Some((0 - (n as i128)) as i64),
            None => None,
        }
    } else {
        let from: usize = if t.len() > 0 && t[0] == '+' { 1 } else { 0 };
        match read_digits(t, from, i64::MAX as u64) {
            Some(n) => Some(n as i64),
            None => None,
        }
    }
}

/// The digit that stands for `d`.
pub open spec fn digit_char(d: nat) -> char {
    (('0' as u32) + d) as char
}

/// `n` in decimal, without leading zeros.
pub open spec fn decimal(n: nat) -> Seq<char>
    decreases n,
{
    if n < 10 {
        seq![digit_char(n)]
    } else {
        decimal(n / 10).push(digit_char(n % 10))
    }
}

/// `n` in decimal, with a `-` before a negative number.
pub open spec fn decimal_int(n: int) -> Seq<char> {
    if n < 0 {
        seq!['-'] + decimal((-n) as nat)
    } else {
        decimal(n as nat)
    }
}

/// `n` in decimal.
pub fn decimal_text(n: u64) -> (r: Vec<char>)
    ensures
        r@ == decimal(n as nat),
    decreases n,
{
    let d: u8 = (n % 10) as u8;
    let c: char = (48u8 + d) as char;
    proof {
        assert(c == digit_char((n % 10) as nat));
    }
    if n < 10 {
        let mut out: Vec<char> = Vec::new();
        out.push(c);
        proof {
            assert(out@ =~= seq![digit_char(n as nat)]);
        }
        out
    } else {
        let mut out = decimal_text(n / 10);
        out.push(c);
        out
    }
}

/// `n` in decimal.
pub fn decimal_i64_text(n: i64) -> (r: Vec<char>)
    ensures
        r@ == decimal_int(n as int),
{
    if n < 0 {
        let digits = decimal_text((0 - (n as i128)) as u64);
        let mut out: Vec<char> = Vec::new();
        out.push('-');
        crate::text::extend(&mut out, &digits);
        proof {
            assert(out@ =~= seq!['-'] + digits@);
        }
        out
    } else {
        decimal_text(n as u64)
    }
}

/// Decimal text is digits only, never empty, and stands for the number it was written from.
pub proof fn lemma_decimal(n: nat)
    ensures
        decimal(n).len() > 0,
        all_digits(decimal(n)),
        digits_value(decimal(n)) == n,
        unsigned(decimal(n)) == Some(n),
    decreases n,
{
    if n < 10 {
        let s = decimal(n);
        assert(s.drop_last() =~= Seq::<char>::empty());
        assert(digits_value(Seq::<char>::empty()) == 0);
        assert(digits_value(s) == digits_value(s.drop_last()) * 10 + ((s.last() as u32 - '0' as u32) as nat));
    } else {
        lemma_decimal(n / 10);
        let s = decimal(n);
        assert(s.drop_last() =~= decimal(n / 10));
        assert(is_digit(digit_char(n % 10)));
        assert forall|i: int| 0 <= i < s.len() implies is_digit(#[trigger] s[i]) by {
            if i < s.len() - 1 {
                assert(s[i] == decimal(n / 10)[i]);
            }
        }
    }
    assert(is_digit(decimal(n)[0]));
}

/// What [`decimal_text`] writes, [`parse_usize`] reads back.
pub proof fn law_decimal_round_trip(n: usize)
    ensures
        usize_of(decimal(n as nat)) == Some(n),
{
    lemma_decimal(n as nat);
}

/// A number below ten is written as its digit, any other as the number of its tens followed by the
/// digit of its ones.
pub proof fn law_decimal_is_tens_and_ones(n: nat, d: nat)
    requires
        d < 10,
    ensures
        decimal(d).len() == 1,
        decimal(d)[0] as u32 == 48 + d,
        n > 0 ==> decimal(10 * n + d) == decimal(n) + decimal(d),
{
    if n > 0 {
        assert(decimal(10 * n + d) =~= decimal(n) + decimal(d));
    }
}

/// What [`decimal_i64_text`] writes, [`parse_i64`] reads back. A number may have a `+` before it.
pub proof fn law_signed_decimal_round_trip(n: i64)
    ensures
        i64_of(decimal_int(n as int)) == Some(n),
        n >= 0 ==> i64_of(seq!['+'] + decimal(n as nat)) == Some(n),
        n > 0 ==> decimal_int(-n) == seq!['-'] + decimal(n as nat),
{
    if n < 0 {
        let m = (-n) as nat;
        lemma_decimal(m);
        let s = decimal_int(n as int);
        assert(s.skip(1) =~= decimal(m));
    } else {
        lemma_decimal(n as nat);
        let s = seq!['+'] + decimal(n as nat);
        assert(s.skip(1) =~= decimal(n as nat));
        assert(is_digit(decimal(n as nat)[0]));
    }
}

/// A text with anything but digits behind its sign is no number, nor is a sign alone or nothing.
pub proof fn law_other_texts_are_no_numbers(s: Seq<char>, i: int)
    requires
        s.len() > 0 ==> 0 <= i < s.len() && !('0' <= s[i] <= '9') && (i == 0 ==> s.len() == 1 || (
        s[0] != '+' && s[0] != '-')),
    ensures
        usize_of(s) is None,
        i64_of(s) is None,
{
    if s.len() > 0 {
        if i > 0 {
            assert(!is_digit(s.skip(1)[i - 1]));
            assert(!is_digit(s[i]));
        } else {
            assert(!is_digit(s[0]));
        }
    }
}

} // verus!
