//! Year-independent month-day values and inclusive month-day ranges, used to
//! filter which source comics a random pick may choose.

use vstd::prelude::*;

use crate::date::{days_in_month, Date};
use crate::text::{all_digits, dec_val, find_char, find_dd, first_at, first_dd, parse_number, to_chars};

verus! {

/// A month and day without a year. Day validity is judged in a synthetic
/// non-leap year, so February 29 is not a valid `MonthDay`.
#[derive(Clone, Copy, Debug, PartialEq, Eq, Structural)]
pub struct MonthDay {
    pub month: u32,
    pub day: u32,
}

/// Number of days each month has in the synthetic non-leap year.
pub open spec fn days_in_month_nonleap(m: int) -> int {
    days_in_month(1, m)
}

impl MonthDay {
    /// The pair is a valid day of the synthetic non-leap year.
    pub open spec fn wf(self) -> bool {
        1 <= self.month <= 12 && 1 <= self.day <= days_in_month_nonleap(self.month as int)
    }
}

/// Total order on month-day pairs: first by month, then by day.
pub open spec fn md_le(a: MonthDay, b: MonthDay) -> bool {
    a.month < b.month || (a.month == b.month && a.day <= b.day)
}

impl MonthDay {
    /// Builds the pair if it is a valid day of the synthetic non-leap year.
    pub fn from_ymd_opt(month: u32, day: u32) -> (r: Option<MonthDay>)
        ensures
            r is Some <==> (1 <= month <= 12 && 1 <= day <= days_in_month_nonleap(
                month as int,
            )),
            r matches Some(md) ==> md == (MonthDay { month, day }),
    {
        if 1 <= month && month <= 12 && 1 <= day && day <= crate::date::month_length(
            1,
            month,
        ) {
            Some(MonthDay { month, day })
        } else {
            None
        }
    }

    /// January 1, the earliest month-day.
    pub fn first() -> (r: MonthDay)
        ensures
            r == (MonthDay { month: 1u32, day: 1u32 }),
    {
        MonthDay { month: 1, day: 1 }
    }

    /// December 31, the latest month-day.
    pub fn last() -> (r: MonthDay)
        ensures
            r == (MonthDay { month: 12u32, day: 31u32 }),
    {
        MonthDay { month: 12, day: 31 }
    }

    /// Whether `self` sorts at or before `other`.
    pub fn le(&self, other: &MonthDay) -> (r: bool)
        ensures
            r == md_le(*self, *other),
    {
        self.month < other.month || (self.month == other.month && self.day <= other.day)
    }
}

/// An inclusive month-day interval. It cannot wrap across the turn of the
/// year: the start must not come after the end.
#[derive(Clone, Copy, Debug, PartialEq, Eq, Structural)]
pub struct DateRange {
    pub from: MonthDay,
    pub to: MonthDay,
}

impl DateRange {
    /// Both ends are valid and the start does not come after the end.
    pub open spec fn wf(self) -> bool {
        self.from.wf() && self.to.wf() && md_le(self.from, self.to)
    }

    /// The range spanning the whole year, January 1 through December 31.
    pub fn all() -> (r: DateRange)
        ensures
            r == (DateRange {
                from: MonthDay { month: 1u32, day: 1u32 },
                to: MonthDay { month: 12u32, day: 31u32 },
            }),
            r.wf(),
    {
        DateRange { from: MonthDay::first(), to: MonthDay::last() }
    }

    /// True when the month and day of `date` lie inside the range; the year
    /// of `date` plays no part.
    pub open spec fn spec_contains(self, date: Date) -> bool {
        md_le(self.from, MonthDay { month: date.month, day: date.day }) && md_le(
            MonthDay { month: date.month, day: date.day },
            self.to,
        )
    }

    /// Whether the month and day of `date` lie inside the range, whatever
    /// its year.
    pub fn contains(&self, date: &Date) -> (r: bool)
        ensures
            r == self.spec_contains(*date),
    {
        let md = MonthDay { month: date.month, day: date.day };
        self.from.le(&md) && md.le(&self.to)
    }
}

/// Law: whether a range contains a date depends on the date's month and day
/// alone; two dates that share them, in any two years, stand or fall
/// together.
pub proof fn lemma_range_contains_ignores_year(dr: DateRange, d1: Date, d2: Date)
    requires
        d1.month == d2.month,
        d1.day == d2.day,
    ensures
        dr.spec_contains(d1) == dr.spec_contains(d2),
{
}

/// Law: the full-year range contains every valid date of any year.
pub proof fn lemma_all_range_contains_every_date(d: Date)
    requires
        d.wf(),
    ensures
        (DateRange {
            from: MonthDay { month: 1u32, day: 1u32 },
            to: MonthDay { month: 12u32, day: 31u32 },
        }).spec_contains(d),
{
}

/// How parsing a month-day range can fail.
#[derive(Clone, Copy, Debug, PartialEq, Eq, Structural)]
pub enum RangeError {
    /// The text before `..` (or the whole text) is not a valid month-day.
    InvalidStart,
    /// The text after `..` is not a valid month-day.
    InvalidEnd,
    /// Both ends parsed but the start comes after the end.
    EndBeforeStart,
}

impl RangeError {
    /// A short description of the failure.
    pub fn message(&self) -> (r: &'static str)
        ensures
            (*self is InvalidStart) ==> r@ == "Invalid start date"@,
            (*self is InvalidEnd) ==> r@ == "Invalid end date"@,
            (*self is EndBeforeStart) ==> r@ == "End date must be after start date"@,
            r@.len() > 0,
    {
        proof {
            reveal_strlit("Invalid start date");
            reveal_strlit("Invalid end date");
            reveal_strlit("End date must be after start date");
        }
        match self {
            RangeError::InvalidStart => "Invalid start date",
            RangeError::InvalidEnd => "Invalid end date",
            RangeError::EndBeforeStart => "End date must be after start date",
        }
    }
}

/// The month-day named by `s` in `MM-DD` form: digits, a dash, digits.
/// Text after a second dash is ignored. `None` when the shape or the values
/// are invalid.
pub open spec fn spec_parse_month_day(s: Seq<char>) -> Option<MonthDay> {
    let i = first_at(s, '-');
    if i == s.len() {
        None
    } else {
        let mpart = s.take(i);
        let rest = s.skip(i + 1);
        let dpart = rest.take(first_at(rest, '-'));
        if mpart.len() > 0 && all_digits(mpart) && dpart.len() > 0 && all_digits(dpart)
            && 1 <= dec_val(mpart) <= 12 && 1 <= dec_val(dpart) <= days_in_month_nonleap(
            dec_val(mpart),
        ) {
            Some(MonthDay { month: dec_val(mpart) as u32, day: dec_val(dpart) as u32 })
        } else {
            None
        }
    }
}

/// The range named by `s`: a single `MM-DD`, or `MM-DD..MM-DD` with the
/// start not after the end. Text after a second `..` is ignored.
pub open spec fn spec_parse_range(s: Seq<char>) -> Result<DateRange, RangeError> {
    let p = first_dd(s);
    match spec_parse_month_day(s.take(p)) {
        None => Err(RangeError::InvalidStart),
        Some(from) => {
            let to_opt = if p == s.len() {
                Some(from)
            } else {
                let rest = s.skip(p + 2);
                spec_parse_month_day(rest.take(first_dd(rest)))
            };
            match to_opt {
                None => Err(RangeError::InvalidEnd),
                Some(to) => if md_le(from, to) {
                    Ok(DateRange { from, to })
                } else {
                    Err(RangeError::EndBeforeStart)
                },
            }
        },
    }
}

fn parse_month_day_segment(chars: &Vec<char>, from: usize, to: usize) -> (r: Option<
    MonthDay,
>)
    requires
        from <= to <= chars@.len(),
    ensures
        r == spec_parse_month_day(chars@.subrange(from as int, to as int)),
        r matches Some(md) ==> md.wf(),
{
    let ghost seg = chars@.subrange(from as int, to as int);
    let i = find_char(chars, from, '-');
    let i = if i > to {
        to
    } else {
        i
    };
    proof {
        assert(forall|k: int| 0 <= k < seg.len() ==> seg[k] == chars@[k + from]);
        if i < to {
            crate::text::lemma_first_at_unique(seg, '-', i - from);
        } else {
            crate::text::lemma_first_at_unique(seg, '-', to - from);
        }
    }
    if i == to {
        return None;
    }
    let j = find_char(chars, i + 1, '-');
    let j = if j > to {
        to
    } else {
        j
    };
    let ghost rest = seg.skip(i - from + 1);
    proof {
        assert(forall|k: int| 0 <= k < rest.len() ==> rest[k] == chars@[k + i + 1]);
        if j < to {
            crate::text::lemma_first_at_unique(rest, '-', j - i - 1);
        } else {
            crate::text::lemma_first_at_unique(rest, '-', to - i - 1);
        }
        assert(seg.take(i - from) =~= chars@.subrange(from as int, i as int));
        assert(rest.take(j - i - 1) =~= chars@.subrange(i as int + 1, j as int));
    }
    let m = match parse_number(chars, from, i, 12) {
        Some(m) => m,
        None => {
            return None;
        },
    };
    let d = match parse_number(chars, i + 1, j, 31) {
        Some(d) => d,
        None => {
            return None;
        },
    };
    MonthDay::from_ymd_opt(m, d)
}

impl DateRange {
    /// Parses `MM-DD` or `MM-DD..MM-DD`, month and day as decimal numbers:
    /// exactly `spec_parse_range` of the text.
    pub fn parse(s: &str) -> (r: Result<DateRange, RangeError>)
        ensures
            r == spec_parse_range(s@),
            r matches Ok(dr) ==> dr.wf(),
    {
        let chars = to_chars(s);
        let n = chars.len();
        let p = find_dd(&chars, 0);
        proof {
            assert(chars@.skip(0) =~= chars@);
            assert(chars@.subrange(0, p as int) =~= chars@.take(p as int));
        }
        let from = match parse_month_day_segment(&chars, 0, p) {
            Some(md) => md,
            None => {
                return Err(RangeError::InvalidStart);
            },
        };
        let to = if p == n {
            from
        } else {
            let q = find_dd(&chars, p + 2);
            proof {
                assert(chars@.subrange(p as int + 2, q as int) =~= chars@.skip(
                    p + 2,
                ).take(q - p - 2));
            }
            match parse_month_day_segment(&chars, p + 2, q) {
                Some(md) => md,
                None => {
                    return Err(RangeError::InvalidEnd);
                },
            }
        };
        if from.le(&to) {
            Ok(DateRange { from, to })
        } else {
            Err(RangeError::EndBeforeStart)
        }
    }
}

} // verus!
