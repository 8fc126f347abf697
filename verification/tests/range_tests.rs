use garfutils::date::Date;
use garfutils::range::{DateRange, MonthDay, RangeError};

fn date(y: u32, m: u32, d: u32) -> Date {
    Date::new(y, m, d).expect("test date should be valid")
}

#[test]
fn parse_range_roundtrips_march() {
    let r = DateRange::parse("03-01..03-15").expect("range should parse");
    assert_eq!(r.from, MonthDay { month: 3, day: 1 });
    assert_eq!(r.to, MonthDay { month: 3, day: 15 });
    // Every date with month 3 and day 1..=15 is contained, for any year.
    for y in [1978, 2000, 2024, 9999] {
        for d in 1..=15 {
            assert!(r.contains(&date(y, 3, d)));
        }
        assert!(!r.contains(&date(y, 3, 16)));
        assert!(!r.contains(&date(y, 2, 10)));
        assert!(!r.contains(&date(y, 4, 1)));
    }
}

#[test]
fn parse_range_rejects_invalid_day_for_month() {
    assert_eq!(DateRange::parse("02-30"), Err(RangeError::InvalidStart));
}

#[test]
fn parse_range_rejects_feb_29_in_synthetic_year() {
    // The synthetic comparison year is not a leap year.
    assert_eq!(DateRange::parse("02-29"), Err(RangeError::InvalidStart));
    assert!(DateRange::parse("02-28").is_ok());
}

#[test]
fn parse_range_rejects_backwards_range() {
    assert_eq!(DateRange::parse("06-10..06-01"), Err(RangeError::EndBeforeStart));
}

#[test]
fn parse_range_single_day() {
    let r = DateRange::parse("06-10").expect("single day should parse");
    assert_eq!(r.from, r.to);
    assert_eq!(r.from, MonthDay { month: 6, day: 10 });
    assert!(r.contains(&date(2024, 6, 10)));
    assert!(!r.contains(&date(2024, 6, 11)));
}

#[test]
fn parse_range_rejects_bad_end() {
    assert_eq!(DateRange::parse("06-10..junk"), Err(RangeError::InvalidEnd));
}

#[test]
fn parse_range_rejects_shapeless_text() {
    assert_eq!(DateRange::parse(""), Err(RangeError::InvalidStart));
    assert_eq!(DateRange::parse("junk"), Err(RangeError::InvalidStart));
    assert_eq!(DateRange::parse("13-01"), Err(RangeError::InvalidStart));
    assert_eq!(DateRange::parse("00-01"), Err(RangeError::InvalidStart));
    assert_eq!(DateRange::parse("06-00"), Err(RangeError::InvalidStart));
}

#[test]
fn parse_range_accepts_unpadded_numbers() {
    let r = DateRange::parse("6-1..6-2").expect("unpadded numbers parse");
    assert_eq!(r.from, MonthDay { month: 6, day: 1 });
    assert_eq!(r.to, MonthDay { month: 6, day: 2 });
}

#[test]
fn all_range_spans_the_year() {
    let r = DateRange::all();
    assert_eq!(r.from, MonthDay { month: 1, day: 1 });
    assert_eq!(r.to, MonthDay { month: 12, day: 31 });
    assert!(r.contains(&date(2024, 1, 1)));
    assert!(r.contains(&date(2024, 12, 31)));
    assert!(r.contains(&date(1999, 7, 15)));
}

#[test]
fn month_day_constructors() {
    assert_eq!(MonthDay::from_ymd_opt(2, 29), None);
    assert_eq!(MonthDay::from_ymd_opt(2, 28), Some(MonthDay { month: 2, day: 28 }));
    assert_eq!(MonthDay::from_ymd_opt(13, 1), None);
    assert_eq!(MonthDay::from_ymd_opt(0, 1), None);
    assert_eq!(MonthDay::first(), MonthDay { month: 1, day: 1 });
    assert_eq!(MonthDay::last(), MonthDay { month: 12, day: 31 });
}

#[test]
fn range_error_messages_are_distinct() {
    let a = RangeError::InvalidStart.message();
    let b = RangeError::InvalidEnd.message();
    let c = RangeError::EndBeforeStart.message();
    assert!(!a.is_empty() && !b.is_empty() && !c.is_empty());
    assert_ne!(a, b);
    assert_ne!(b, c);
    assert_ne!(a, c);
}
