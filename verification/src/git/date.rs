//! Calendar dates of points in time.

use vstd::prelude::*;

use crate::number;
use crate::number::decimal_i64_text;
use crate::text::extend;

verus! {

broadcast use vstd::string::group_string_axioms;

/// The number of days after which the calendar repeats: four hundred years.
pub const CYCLE_DAYS: i64 = 146_097;

/// Whether the year has a 29th of February.
pub open spec fn is_leap(year: int) -> bool {
    year % 4 == 0 && (year % 100 != 0 || year % 400 == 0)
}

/// The number of days in the year.
pub open spec fn year_days(year: int) -> int {
    if is_leap(year) {
        366
    } else {
        365
    }
}

/// The number of days in a month, January being month 1.
pub open spec fn month_days(year: int, month: int) -> int {
    if month == 2 {
        if is_leap(year) {
            29
        } else {
            28
        }
    } else if month == 4 || month == 6 || month == 9 || month == 11 {
        30
    } else {
        31
    }
}

/// The year, and the day counted from its start, `days` days after the start of `year`.
pub open spec fn year_and_day(year: int, days: int) -> (int, int)
    decreases days,
{
    if days < year_days(year) {
        (year, days)
    } else {
        year_and_day(year + 1, days - year_days(year))
    }
}

/// The month and the day of the month, both counted from one, `days` days after the start of
/// `month`.
pub open spec fn month_and_day(year: int, month: int, days: int) -> (int, int)
    decreases 12 - month,
{
    if month >= 12 || days < month_days(year, month) {
        (month, days + 1)
    } else {
        month_and_day(year, month + 1, days - month_days(year, month))
    }
}

/// The year, month and day, `days` days after 1970-01-01.
pub open spec fn civil(days: int) -> (int, int, int) {
    let (year, day) = year_and_day(1970, days % (CYCLE_DAYS as int));
    let (month, of_month) = month_and_day(year, 1, day);
    (year + 400 * (days / (CYCLE_DAYS as int)), month, of_month)
}

/// `s` with zeros in front up to `width` characters.
pub open spec fn zero_padded(s: Seq<char>, width: nat) -> Seq<char>
    decreases width - s.len(),
{
    if s.len() >= width {
        s
    } else {
        zero_padded(seq!['0'] + s, width)
    }
}

/// The date of a point in time, given in seconds after 1970-01-01 00:00 UTC, as YYYY-MM-DD in UTC.
pub open spec fn short_date(secs: int) -> Seq<char> {
    let (year, month, day) = civil(secs / 86400);
    zero_padded(number::decimal_int(year), 4) + seq!['-'] + zero_padded(
        number::decimal_int(month),
        2,
    ) + seq!['-'] + zero_padded(number::decimal_int(day), 2)
}

fn leap(year: i64) -> (r: bool)
    requires
        year >= 0,
    ensures
        r == is_leap(year as int),
{
    year % 4 == 0 && (year % 100 != 0 || year % 400 == 0)
}

fn days_of_month(year: i64, month: i64) -> (r: i64)
    requires
        year >= 0,
    ensures
        r == month_days(year as int, month as int),
        28 <= r <= 31,
{
    if month == 2 {
        if leap(year) {
            29
        } else {
            28
        }
    } else if month == 4 || month == 6 || month == 9 || month == 11 {
        30
    } else {
        31
    }
}

fn pad(t: Vec<char>, width: usize) -> (r: Vec<char>)
    ensures
        r@ == zero_padded(t@, width as nat),
{
    let mut out = t;
    while out.len() < width
        invariant
            zero_padded(out@, width as nat) == zero_padded(t@, width as nat),
        decreases width - out@.len(),
    {
        let ghost before = out@;
        out.insert(0, '0');
        proof {
            assert(out@ =~= seq!['0'] + before);
        }
    }
    out
}

/// The months and days run as in a calendar: a month is one of twelve, and a day lies in it.
pub proof fn law_civil_is_a_date(days: int)
    ensures
        ({
            let (year, month, day) = civil(days);
            1 <= month <= 12 && 1 <= day <= month_days(year, month)
        }),
{
    let d = days % (CYCLE_DAYS as int);
    lemma_year_and_day(1970, d);
    let (year, day) = year_and_day(1970, d);
    let shifted = year + 400 * (days / (CYCLE_DAYS as int));
    assert(is_leap(shifted) == is_leap(year)) by {
        lemma_leap_repeats(year, days / (CYCLE_DAYS as int));
    }
    lemma_month_and_day(year, 1, day);
}

proof fn lemma_leap_repeats(year: int, cycles: int)
    ensures
        is_leap(year + 400 * cycles) == is_leap(year),
{
    let n = 400 * cycles;
    assert((year + n) % 4 == year % 4 && (year + n) % 100 == year % 100 && (year + n) % 400 == year
        % 400);
}

proof fn lemma_year_and_day(year: int, days: int)
    requires
        0 <= days,
    ensures
        year <= year_and_day(year, days).0 <= year + days,
        0 <= year_and_day(year, days).1 < year_days(year_and_day(year, days).0),
    decreases days,
{
    if days >= year_days(year) {
        lemma_year_and_day(year + 1, days - year_days(year));
    }
}

/// The days of the year from the start of `month` on.
spec fn days_left(year: int, month: int) -> int
    decreases 12 - month,
{
    if month >= 12 {
        31
    } else {
        month_days(year, month) + days_left(year, month + 1)
    }
}

proof fn lemma_month_and_day(year: int, month: int, days: int)
    requires
        1 <= month <= 12,
        0 <= days,
        days < days_left(year, month) || (month == 1 && days < year_days(year)),
    ensures
        month <= month_and_day(year, month, days).0 <= 12,
        1 <= month_and_day(year, month, days).1 <= month_days(
            year,
            month_and_day(year, month, days).0,
        ),
    decreases 12 - month,
{
    reveal_with_fuel(days_left, 13);
    if month < 12 && days >= month_days(year, month) {
        lemma_month_and_day(year, month + 1, days - month_days(year, month));
    }
}

/// The date of a point in time, given in seconds after 1970-01-01 00:00 UTC, as YYYY-MM-DD in UTC.
pub fn short_date_text(secs: i64) -> (r: Vec<char>)
    ensures
        r@ == short_date(secs as int),
{
    let days: i64 = if secs >= 0 {
        secs / 86400
    } else {
        -((-(secs + 1)) / 86400) - 1
    };
    assert(days == secs as int / 86400);
    let cycles: i64 = if days >= 0 {
        days / CYCLE_DAYS
    } else {
        -((-(days + 1)) / CYCLE_DAYS) - 1
    };
    assert(cycles == days as int / 146_097);
    let mut day: i64 = days - cycles * CYCLE_DAYS;
    assert(day == days as int % 146_097);
    let ghost first = day as int;
    let mut year: i64 = 1970;
    loop
        invariant_except_break
            0 <= day <= 146_097,
            1970 <= year,
            year + day <= 1970 + 146_097,
            year_and_day(year as int, day as int) == year_and_day(1970, first),
        ensures
            0 <= day <= 146_097,
            1970 <= year <= 1970 + 146_097,
            year_and_day(1970, first) == (year as int, day as int),
        decreases day,
    {
        let n: i64 = if leap(year) {
            366
        } else {
            365
        };
        if day < n {
            break;
        }
        day = day - n;
        year = year + 1;
    }
    let ghost in_year = day as int;
    let mut month: i64 = 1;
    while month < 12 && day >= days_of_month(year, month)
        invariant
            0 <= day <= 146_097,
            1 <= month <= 12,
            1970 <= year <= 1970 + 146_097,
            month_and_day(year as int, month as int, day as int) == month_and_day(
                year as int,
                1,
                in_year,
            ),
        decreases 12 - month,
    {
        day = day - days_of_month(year, month);
        month = month + 1;
    }
    let mut t = pad(decimal_i64_text(year + 400 * cycles), 4);
    t.push('-');
    let m = pad(decimal_i64_text(month), 2);
    extend(&mut t, &m);
    t.push('-');
    let d = pad(decimal_i64_text(day + 1), 2);
    extend(&mut t, &d);
    proof {
        let (y, mo, da) = civil(secs as int / 86400);
        let p = zero_padded(number::decimal_int(y), 4);
        let q = zero_padded(number::decimal_int(mo), 2);
        let r = zero_padded(number::decimal_int(da), 2);
        assert(y == year + 400 * cycles && mo == month && da == day + 1);
        assert(t@ =~= p + seq!['-'] + q + seq!['-'] + r);
    }
    t
}

/// How many leap years the years from 1 to `year` hold, as the Gregorian calendar has them.
pub open spec fn leap_years(year: int) -> int {
    year / 4 - year / 100 + year / 400
}

/// The days of the year before the month: those of the months before it, and the leap day.
pub open spec fn days_before(year: int, month: int) -> int {
    let plain = seq![0int, 31, 59, 90, 120, 151, 181, 212, 243, 273, 304, 334][month - 1];
    if month > 2 && leap_years(year) > leap_years(year - 1) {
        plain + 1
    } else {
        plain
    }
}

/// How many days lie between 1970-01-01 and a date of the Gregorian calendar.
pub open spec fn day_number(year: int, month: int, day: int) -> int {
    365 * (year - 1970) + leap_years(year - 1) - leap_years(1969) + days_before(year, month) + day
        - 1
}

/// The days from the start of 1970 to the start of the year.
spec fn year_start(year: int) -> int {
    365 * (year - 1970) + leap_years(year - 1) - leap_years(1969)
}

proof fn lemma_leap_years(year: int)
    ensures
        leap_years(year) - leap_years(year - 1) == (if is_leap(year) {
            1int
        } else {
            0
        }),
        year_start(year + 1) == year_start(year) + year_days(year),
{
    assert(year / 4 - (year - 1) / 4 == (if year % 4 == 0 {
        1int
    } else {
        0
    }));
    assert(year / 100 - (year - 1) / 100 == (if year % 100 == 0 {
        1int
    } else {
        0
    }));
    assert(year / 400 - (year - 1) / 400 == (if year % 400 == 0 {
        1int
    } else {
        0
    }));
    assert(year % 100 == 0 ==> year % 4 == 0);
    assert(year % 400 == 0 ==> year % 100 == 0);
}

proof fn lemma_year_start(year: int, days: int)
    requires
        0 <= days,
    ensures
        ({
            let (y, r) = year_and_day(year, days);
            year_start(year) + days == year_start(y) + r && 0 <= r < year_days(y)
        }),
    decreases days,
{
    lemma_leap_years(year);
    if days >= year_days(year) {
        lemma_year_start(year + 1, days - year_days(year));
    }
}

proof fn lemma_days_before(year: int, month: int)
    requires
        1 <= month <= 12,
    ensures
        days_before(year, 1) == 0,
        month < 12 ==> days_before(year, month + 1) == days_before(year, month) + month_days(
            year,
            month,
        ),
        month == 12 ==> days_before(year, 12) + 31 == year_days(year),
{
    lemma_leap_years(year);
}

proof fn lemma_month_start(year: int, month: int, days: int)
    requires
        1 <= month <= 12,
        0 <= days,
        days_before(year, month) + days < year_days(year),
    ensures
        ({
            let (m, d) = month_and_day(year, month, days);
            days_before(year, month) + days == days_before(year, m) + d - 1 && 1 <= m <= 12 && 1
                <= d <= month_days(year, m)
        }),
    decreases 12 - month,
{
    lemma_days_before(year, month);
    if month < 12 && days >= month_days(year, month) {
        lemma_month_start(year, month + 1, days - month_days(year, month));
    }
}

proof fn lemma_cycle(year: int, cycles: int)
    ensures
        leap_years(year + 400 * cycles) == leap_years(year) + 97 * cycles,
{
    assert((year + 400 * cycles) / 4 == year / 4 + 100 * cycles);
    assert((year + 400 * cycles) / 100 == year / 100 + 4 * cycles);
    assert((year + 400 * cycles) / 400 == year / 400 + cycles);
}

/// A day has the date that it has in the Gregorian calendar: counting the days up to the date gives
/// the day, and the date exists.
pub proof fn law_dates_count_the_days(days: int)
    ensures
        ({
            let (year, month, day) = civil(days);
            &&& day_number(year, month, day) == days
            &&& 1 <= month <= 12
            &&& 1 <= day
            &&& month < 12 ==> day <= days_before(year, month + 1) - days_before(year, month)
            &&& month == 12 ==> day <= 31
        }),
{
    let q = days / (CYCLE_DAYS as int);
    let d = days % (CYCLE_DAYS as int);
    lemma_year_start(1970, d);
    let (y, r) = year_and_day(1970, d);
    lemma_days_before(y, 1);
    lemma_month_start(y, 1, r);
    let (m, of_month) = month_and_day(y, 1, r);
    let year = y + 400 * q;
    lemma_cycle(y, q);
    lemma_cycle(y - 1, q);
    assert(year - 1 == (y - 1) + 400 * q);
    assert(year_start(year) == year_start(y) + 146_097 * q);
    assert(days_before(year, m) == days_before(y, m));
    if m < 12 {
        lemma_days_before(y, m);
        assert(days_before(year, m + 1) == days_before(y, m + 1));
    }
}

proof fn lemma_zero_padded(s: Seq<char>, width: nat)
    requires
        number::all_digits(s),
    ensures
        number::all_digits(zero_padded(s, width)),
        number::digits_value(zero_padded(s, width)) == number::digits_value(s),
        zero_padded(s, width).len() == (if s.len() >= width {
            s.len()
        } else {
            width
        }),
    decreases width - s.len(),
{
    if s.len() < width {
        let t = seq!['0'] + s;
        assert forall|i: int| 0 <= i < t.len() implies number::is_digit(#[trigger] t[i]) by {
            if i > 0 {
                assert(number::is_digit(s[i - 1]));
            }
        }
        lemma_leading_zero(s);
        lemma_zero_padded(t, width);
    }
}

proof fn lemma_leading_zero(s: Seq<char>)
    ensures
        number::digits_value(seq!['0'] + s) == number::digits_value(s),
    decreases s.len(),
{
    let t = seq!['0'] + s;
    if s.len() == 0 {
        assert(t.drop_last() =~= Seq::<char>::empty());
        reveal_with_fuel(number::digits_value, 2);
    } else {
        assert(t.drop_last() =~= seq!['0'] + s.drop_last());
        lemma_leading_zero(s.drop_last());
    }
}

proof fn lemma_decimal_len(n: int)
    requires
        n >= 0,
    ensures
        n < 100 ==> number::decimal_int(n).len() <= 2,
        n < 10_000 ==> number::decimal_int(n).len() <= 4,
{
    reveal_with_fuel(number::decimal, 5);
}

/// The date of a point in time in the years 0 to 9999: four digits for the year, two for the month
/// and two for the day, with dashes between them, and they tell the day on which it lies in UTC.
pub proof fn law_short_date_tells_the_day(secs: int)
    requires
        -62_167_219_200 <= secs <= 253_402_300_799,
    ensures
        ({
            let s = short_date(secs);
            let year = number::digits_value(s.take(4)) as int;
            let month = number::digits_value(s.subrange(5, 7)) as int;
            let day = number::digits_value(s.subrange(8, 10)) as int;
            &&& s.len() == 10
            &&& s[4] == '-'
            &&& s[7] == '-'
            &&& number::all_digits(s.take(4))
            &&& number::all_digits(s.subrange(5, 7))
            &&& number::all_digits(s.subrange(8, 10))
            &&& 1 <= month <= 12
            &&& 1 <= day <= 31
            &&& 86400 * day_number(year, month, day) <= secs < 86400 * (day_number(year, month, day)
                + 1)
        }),
{
    let days = secs / 86400;
    law_dates_count_the_days(days);
    let (year, month, day) = civil(days);
    assert(days_before(year, month) <= 335);
    if month < 12 {
        lemma_days_before(year, month);
    }
    lemma_leap_years(year);
    assert(-719_528 <= days <= 2_932_896);
    assert(0 <= year <= 9999) by {
        assert(leap_years(1969) == 477);
        if year < 0 {
            assert(leap_years(year - 1) <= 0 - 1);
            assert(365 * (year - 1970) <= 365 * (0 - 1971));
        }
        if year > 9999 {
            assert(leap_years(year - 1) >= leap_years(9999));
            assert(leap_years(9999) == 2424);
        }
    }
    number::lemma_decimal(year as nat);
    number::lemma_decimal(month as nat);
    number::lemma_decimal(day as nat);
    lemma_decimal_len(year);
    lemma_decimal_len(month);
    lemma_decimal_len(day);
    let a = zero_padded(number::decimal_int(year), 4);
    let b = zero_padded(number::decimal_int(month), 2);
    let c = zero_padded(number::decimal_int(day), 2);
    lemma_zero_padded(number::decimal_int(year), 4);
    lemma_zero_padded(number::decimal_int(month), 2);
    lemma_zero_padded(number::decimal_int(day), 2);
    let s = short_date(secs);
    assert(s =~= a + seq!['-'] + b + seq!['-'] + c);
    assert(s.take(4) =~= a);
    assert(s.subrange(5, 7) =~= b);
    assert(s.subrange(8, 10) =~= c);
}

} // verus!
