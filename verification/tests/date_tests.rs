use garfutils::date::{parse_date, parse_date_trimmed, Date};

#[test]
fn parse_date_reads_iso_form() {
    let d = parse_date("2024-01-07").expect("date should parse");
    assert_eq!(d, Date { year: 2024, month: 1, day: 7 });
}

#[test]
fn parse_date_rejects_malformed_text() {
    assert_eq!(parse_date(""), None);
    assert_eq!(parse_date("2024-13-01"), None);
    assert_eq!(parse_date("2024-00-01"), None);
    assert_eq!(parse_date("2024-02-30"), None);
    assert_eq!(parse_date("24-01-07"), None);
    assert_eq!(parse_date("2024-1-7"), None);
    assert_eq!(parse_date("2024/01/07"), None);
    assert_eq!(parse_date("2024-01-07x"), None);
    assert_eq!(parse_date("x2024-01-07"), None);
}

#[test]
fn parse_date_knows_leap_years() {
    assert_eq!(
        parse_date("2024-02-29"),
        Some(Date { year: 2024, month: 2, day: 29 })
    );
    assert_eq!(parse_date("2023-02-29"), None);
    assert_eq!(parse_date("1900-02-29"), None);
    assert_eq!(
        parse_date("2000-02-29"),
        Some(Date { year: 2000, month: 2, day: 29 })
    );
}

#[test]
fn parse_date_trimmed_allows_surrounding_blanks() {
    assert_eq!(
        parse_date_trimmed("2024-01-07\n"),
        Some(Date { year: 2024, month: 1, day: 7 })
    );
    assert_eq!(
        parse_date_trimmed("  2024-01-07  "),
        Some(Date { year: 2024, month: 1, day: 7 })
    );
    assert_eq!(parse_date_trimmed("2024-01-07 x"), None);
}

#[test]
fn format_writes_iso_form() {
    let d = Date::new(2024, 1, 7).expect("valid date");
    assert_eq!(d.format(), "2024-01-07");
    let d = Date::new(1978, 6, 19).expect("valid date");
    assert_eq!(d.format(), "1978-06-19");
    let d = Date::new(9999, 12, 31).expect("valid date");
    assert_eq!(d.format(), "9999-12-31");
}

#[test]
fn weekday_matches_known_dates() {
    // 2024-01-07 was a Sunday.
    assert_eq!(Date::new(2024, 1, 7).unwrap().weekday(), 0);
    assert!(Date::new(2024, 1, 7).unwrap().is_sunday());
    // 2024-01-08 was a Monday.
    assert_eq!(Date::new(2024, 1, 8).unwrap().weekday(), 1);
    assert!(!Date::new(2024, 1, 8).unwrap().is_sunday());
    // 2000-01-01 was a Saturday.
    assert_eq!(Date::new(2000, 1, 1).unwrap().weekday(), 6);
    // 1978-06-19, the first comic's date, was a Monday.
    assert_eq!(Date::new(1978, 6, 19).unwrap().weekday(), 1);
    // 2024-02-29 was a Thursday.
    assert_eq!(Date::new(2024, 2, 29).unwrap().weekday(), 4);
}

#[test]
fn date_new_validates() {
    assert!(Date::new(2024, 1, 31).is_some());
    assert!(Date::new(2024, 4, 31).is_none());
    assert!(Date::new(2024, 0, 1).is_none());
    assert!(Date::new(0, 1, 1).is_none());
    assert!(Date::new(10000, 1, 1).is_none());
}

#[test]
fn format_then_parse_returns_the_same_date() {
    let dates = [
        Date { year: 2024, month: 1, day: 7 },
        Date { year: 1978, month: 6, day: 19 },
        Date { year: 2000, month: 2, day: 29 },
        Date { year: 9999, month: 12, day: 31 },
        Date { year: 1, month: 1, day: 1 },
    ];
    for d in dates {
        assert_eq!(parse_date(&d.format()), Some(d));
    }
}
