//! Calendar dates: validity, weekday reckoning, and the `YYYY-MM-DD` text
//! form used for source file names, post date files and the recent-date
//! cache.

use vstd::prelude::*;

use crate::text::{all_digits, dec_val, is_digit, parse_number, to_chars, chars_to_string};

verus! {

/// True exactly when `y` is a leap year in the proleptic Gregorian calendar.
pub open spec fn is_leap_year(y: int) -> bool {
    (y % 4 == 0 && y % 100 != 0) || y % 400 == 0
}

/// Number of days in month `m` (1-based) of year `y`.
pub open spec fn days_in_month(y: int, m: int) -> int {
    if m == 2 {
        if is_leap_year(y) {
            29
        } else {
            28
        }
    } else if m == 4 || m == 6 || m == 9 || m == 11 {
        30
    } else {
        31
    }
}

/// A valid Gregorian date with a four-digit year.
pub open spec fn valid_date(y: int, m: int, d: int) -> bool {
    1 <= y <= 9999 && 1 <= m <= 12 && 1 <= d <= days_in_month(y, m)
}

/// Offset of each month in the day-of-week formula.
pub open spec fn month_anchor(m: int) -> int {
    if m == 1 {
        0
    } else if m == 2 {
        3
    } else if m == 3 {
        2
    } else if m == 4 {
        5
    } else if m == 5 {
        0
    } else if m == 6 {
        3
    } else if m == 7 {
        5
    } else if m == 8 {
        1
    } else if m == 9 {
        4
    } else if m == 10 {
        6
    } else if m == 11 {
        2
    } else {
        4
    }
}

/// Day of the week of a Gregorian date, by Sakamoto's congruence:
/// 0 is Sunday, 1 is Monday, and so on through 6 for Saturday.
pub open spec fn weekday_index(y: int, m: int, d: int) -> int {
    let yy = if m < 3 {
        y - 1
    } else {
        y
    };
    (yy + yy / 4 - yy / 100 + yy / 400 + month_anchor(m) + d) % 7
}

/// True when the date falls on a Sunday.
pub open spec fn spec_is_sunday(d: Date) -> bool {
    weekday_index(d.year as int, d.month as int, d.day as int) == 0
}

/// A calendar date, year 1 through 9999.
#[derive(Clone, Copy, Debug, PartialEq, Eq, Structural)]
pub struct Date {
    pub year: u32,
    pub month: u32,
    pub day: u32,
}

/// Number of days in month `m` of year `y`, as an executable count.
pub fn month_length(y: u32, m: u32) -> (r: u32)
    requires
        1 <= m <= 12,
    ensures
        r == days_in_month(y as int, m as int),
{
    if m == 2 {
        let leap = (y % 4 == 0 && y % 100 != 0) || y % 400 == 0;
        if leap {
            29
        } else {
            28
        }
    } else if m == 4 || m == 6 || m == 9 || m == 11 {
        30
    } else {
        31
    }
}

impl Date {
    /// The date is valid in the Gregorian calendar.
    pub open spec fn wf(self) -> bool {
        valid_date(self.year as int, self.month as int, self.day as int)
    }

    /// Builds the date if `(year, month, day)` is a valid Gregorian date.
    pub fn new(year: u32, month: u32, day: u32) -> (r: Option<Date>)
        ensures
            r is Some <==> valid_date(year as int, month as int, day as int),
            r matches Some(date) ==> date == (Date { year, month, day }),
    {
        if 1 <= year && year <= 9999 && 1 <= month && month <= 12 && 1 <= day && day
            <= month_length(year, month) {
            Some(Date { year, month, day })
        } else {
            None
        }
    }

    /// Day of the week, 0 for Sunday through 6 for Saturday.
    pub fn weekday(&self) -> (r: u32)
        requires
            self.wf(),
        ensures
            r == weekday_index(self.year as int, self.month as int, self.day as int),
            r < 7,
    {
        let yy: u32 = if self.month < 3 {
            self.year - 1
        } else {
            self.year
        };
        (yy + yy / 4 - yy / 100 + yy / 400 + month_anchor_exec(self.month) + self.day) % 7
    }

    /// Whether the date falls on a Sunday.
    pub fn is_sunday(&self) -> (r: bool)
        requires
            self.wf(),
        ensures
            r == spec_is_sunday(*self),
    {
        self.weekday() == 0
    }
}

fn month_anchor_exec(m: u32) -> (r: u32)
    requires
        1 <= m <= 12,
    ensures
        r == month_anchor(m as int),
{
    if m == 1 {
        0
    } else if m == 2 {
        3
    } else if m == 3 {
        2
    } else if m == 4 {
        5
    } else if m == 5 {
        0
    } else if m == 6 {
        3
    } else if m == 7 {
        5
    } else if m == 8 {
        1
    } else if m == 9 {
        4
    } else if m == 10 {
        6
    } else if m == 11 {
        2
    } else {
        4
    }
}

/// The digit character for `n`, 0 through 9.
pub open spec fn digit_char(n: int) -> char {
    (48 + n) as char
}

/// The four digit characters of `n`, for 0 <= n <= 9999.
pub open spec fn num4(n: int) -> Seq<char> {
    seq![
        digit_char(n / 1000),
        digit_char(n / 100 % 10),
        digit_char(n / 10 % 10),
        digit_char(n % 10),
    ]
}

/// The two digit characters of `n`, for 0 <= n <= 99.
pub open spec fn num2(n: int) -> Seq<char> {
    seq![digit_char(n / 10), digit_char(n % 10)]
}

/// The `YYYY-MM-DD` text of the date `(y, m, d)`.
pub open spec fn date_chars(y: int, m: int, d: int) -> Seq<char> {
    num4(y) + seq!['-'] + num2(m) + seq!['-'] + num2(d)
}

fn push_digit(v: &mut Vec<char>, n: u32)
    requires
        n < 10,
    ensures
        final(v)@ == old(v)@.push(digit_char(n as int)),
{
    let c = (48u8 + n as u8) as char;
    proof {
        assert(c == digit_char(n as int));
    }
    v.push(c);
}

impl Date {
    /// The date written as `YYYY-MM-DD`.
    pub fn format(&self) -> (r: String)
        requires
            self.wf(),
        ensures
            r@ == date_chars(self.year as int, self.month as int, self.day as int),
    {
        let mut v: Vec<char> = Vec::new();
        push_digit(&mut v, self.year / 1000);
        push_digit(&mut v, self.year / 100 % 10);
        push_digit(&mut v, self.year / 10 % 10);
        push_digit(&mut v, self.year % 10);
        v.push('-');
        push_digit(&mut v, self.month / 10);
        push_digit(&mut v, self.month % 10);
        v.push('-');
        push_digit(&mut v, self.day / 10);
        push_digit(&mut v, self.day % 10);
        proof {
            assert(v@ =~= date_chars(
                self.year as int,
                self.month as int,
                self.day as int,
            ));
        }
        chars_to_string(&v)
    }
}

/// True when `s` is a date in `YYYY-MM-DD` form: four digits, a dash, two
/// digits, a dash, two digits, naming a valid Gregorian date.
pub open spec fn date_str_valid(s: Seq<char>) -> bool {
    &&& s.len() == 10
    &&& s[4] == '-'
    &&& s[7] == '-'
    &&& all_digits(s.subrange(0, 4))
    &&& all_digits(s.subrange(5, 7))
    &&& all_digits(s.subrange(8, 10))
    &&& valid_date(
        dec_val(s.subrange(0, 4)),
        dec_val(s.subrange(5, 7)),
        dec_val(s.subrange(8, 10)),
    )
}

/// The date a valid `YYYY-MM-DD` string names.
pub open spec fn date_of_str(s: Seq<char>) -> Date {
    Date {
        year: dec_val(s.subrange(0, 4)) as u32,
        month: dec_val(s.subrange(5, 7)) as u32,
        day: dec_val(s.subrange(8, 10)) as u32,
    }
}

proof fn lemma_split_digits_4(y: int)
    requires
        0 <= y,
    ensures
        y == 1000 * (y / 1000) + 100 * (y / 100 % 10) + 10 * (y / 10 % 10) + y % 10,
{
    vstd::arithmetic::div_mod::lemma_div_denominator(y, 10, 10);
    vstd::arithmetic::div_mod::lemma_div_denominator(y, 100, 10);
    assert(y == 10 * (y / 10) + y % 10);
    assert(y / 10 == 10 * (y / 10 / 10) + (y / 10) % 10);
    assert(y / 100 == 10 * (y / 100 / 10) + (y / 100) % 10);
}

/// Law: the `YYYY-MM-DD` text of a valid date needs no trimming, is a valid
/// date string, and parses back to the very same date. So a date file
/// written by this library always names the date it was written for.
pub proof fn lemma_format_parse_roundtrip(d: Date)
    requires
        d.wf(),
    ensures
        crate::text::trim_spec(
            date_chars(d.year as int, d.month as int, d.day as int),
        ) == date_chars(d.year as int, d.month as int, d.day as int),
        date_str_valid(date_chars(d.year as int, d.month as int, d.day as int)),
        date_of_str(date_chars(d.year as int, d.month as int, d.day as int)) == d,
{
    let y = d.year as int;
    let m = d.month as int;
    let dd = d.day as int;
    let s = date_chars(y, m, dd);
    assert(s.len() == 10);
    assert(s[4] == '-');
    assert(s[7] == '-');
    assert(s.subrange(0, 4) =~= num4(y));
    assert(s.subrange(5, 7) =~= num2(m));
    assert(s.subrange(8, 10) =~= num2(dd));
    lemma_num4_value(y);
    lemma_num2_value(m);
    lemma_num2_value(dd);
    assert(date_str_valid(s));
    assert(date_of_str(s) == d);
    assert(!crate::text::is_space(s[0]));
    assert(!crate::text::is_space(s[9]));
    assert(crate::text::trim_front(s) == s);
    assert(s.last() == s[9]);
    assert(crate::text::trim_back(s) == s);
}

proof fn lemma_num2_value(m: int)
    requires
        0 <= m <= 99,
    ensures
        all_digits(num2(m)),
        dec_val(num2(m)) == m,
{
    let s = num2(m);
    assert(0 <= m / 10 <= 9);
    assert(0 <= m % 10 <= 9);
    assert(is_digit(digit_char(m / 10)));
    assert(is_digit(digit_char(m % 10)));
    assert(forall|i: int| 0 <= i < 2 ==> is_digit(#[trigger] s[i]));
    assert(s.drop_last() =~= seq![digit_char(m / 10)]);
    assert(seq![digit_char(m / 10)].drop_last() =~= Seq::<char>::empty());
    assert(crate::text::digit_val(digit_char(m / 10)) == m / 10);
    assert(crate::text::digit_val(digit_char(m % 10)) == m % 10);
    assert(dec_val(Seq::<char>::empty()) == 0);
    assert(dec_val(seq![digit_char(m / 10)]) == m / 10);
    assert(dec_val(s) == (m / 10) * 10 + m % 10);
    assert(m == 10 * (m / 10) + m % 10);
}

proof fn lemma_num4_value(y: int)
    requires
        0 <= y <= 9999,
    ensures
        all_digits(num4(y)),
        dec_val(num4(y)) == y,
{
    let s = num4(y);
    assert(0 <= y / 1000 <= 9);
    assert(0 <= y / 100 % 10 <= 9);
    assert(0 <= y / 10 % 10 <= 9);
    assert(0 <= y % 10 <= 9);
    assert(forall|i: int| 0 <= i < 4 ==> is_digit(#[trigger] s[i]));
    let s3 = seq![digit_char(y / 1000), digit_char(y / 100 % 10), digit_char(y / 10 % 10)];
    let s2 = seq![digit_char(y / 1000), digit_char(y / 100 % 10)];
    let s1 = seq![digit_char(y / 1000)];
    assert(s.drop_last() =~= s3);
    assert(s3.drop_last() =~= s2);
    assert(s2.drop_last() =~= s1);
    assert(s1.drop_last() =~= Seq::<char>::empty());
    assert(crate::text::digit_val(digit_char(y / 1000)) == y / 1000);
    assert(crate::text::digit_val(digit_char(y / 100 % 10)) == y / 100 % 10);
    assert(crate::text::digit_val(digit_char(y / 10 % 10)) == y / 10 % 10);
    assert(crate::text::digit_val(digit_char(y % 10)) == y % 10);
    assert(dec_val(Seq::<char>::empty()) == 0);
    assert(dec_val(s1) == y / 1000);
    assert(dec_val(s2) == (y / 1000) * 10 + y / 100 % 10);
    assert(dec_val(s3) == dec_val(s2) * 10 + y / 10 % 10);
    assert(dec_val(s) == dec_val(s3) * 10 + y % 10);
    lemma_split_digits_4(y);
}

/// Parses a date written as `YYYY-MM-DD`; fails on any other text.
pub fn parse_date(s: &str) -> (r: Option<Date>)
    ensures
        r is Some <==> date_str_valid(s@),
        r matches Some(date) ==> date == date_of_str(s@) && date.wf(),
{
    let chars = to_chars(s);
    if chars.len() != 10 {
        return None;
    }
    if !(chars[4] == '-' && chars[7] == '-') {
        return None;
    }
    let y = match parse_number(&chars, 0, 4, 9999) {
        Some(y) => y,
        None => {
            return None;
        },
    };
    let m = match parse_number(&chars, 5, 7, 99) {
        Some(m) => m,
        None => {
            return None;
        },
    };
    let d = match parse_number(&chars, 8, 10, 99) {
        Some(d) => d,
        None => {
            return None;
        },
    };
    match Date::new(y, m, d) {
        Some(date) => Some(date),
        None => None,
    }
}

/// Parses a date from text with surrounding blanks allowed, as a date file's
/// content is read.
pub fn parse_date_trimmed(s: &str) -> (r: Option<Date>)
    ensures
        r is Some <==> date_str_valid(crate::text::trim_spec(s@)),
        r matches Some(date) ==> date == date_of_str(crate::text::trim_spec(s@))
            && date.wf(),
{
    let chars = to_chars(s);
    let (a, b) = crate::text::trim_bounds(&chars, 0, chars.len());
    let sub = crate::text::sub_chars(&chars, a, b);
    proof {
        assert(chars@.subrange(0, chars@.len() as int) =~= chars@);
    }
    let trimmed = chars_to_string(&sub);
    parse_date(trimmed.as_str())
}

} // verus!
