use saffi_wtf::dates::date_prefix;
use saffi_wtf::text::to_chars;
use saffi_wtf::Date;

fn prefix(stem: &str) -> Option<Date> {
    date_prefix(to_chars(stem).as_slice())
}

#[test]
fn parses_strict_prefix() {
    let d = prefix("2024-01-15-hello").unwrap();
    assert_eq!(d, Date { year: 2024, month: 1, day: 15 });
}

#[test]
fn parses_bare_date_stem() {
    let d = prefix("1999-12-31").unwrap();
    assert_eq!(d, Date { year: 1999, month: 12, day: 31 });
}

#[test]
fn rejects_short_stem() {
    assert!(prefix("2024-01-1").is_none());
}

#[test]
fn rejects_non_digit() {
    assert!(prefix("20a4-01-15-x").is_none());
}

#[test]
fn rejects_wrong_separator() {
    assert!(prefix("2024_01_15-x").is_none());
}

#[test]
fn rejects_impossible_month() {
    assert!(prefix("2024-13-01-x").is_none());
}

#[test]
fn rejects_impossible_day() {
    assert!(prefix("2024-04-31-x").is_none());
}

#[test]
fn leap_day_in_leap_year() {
    let d = prefix("2024-02-29-x").unwrap();
    assert_eq!(d, Date { year: 2024, month: 2, day: 29 });
}

#[test]
fn leap_day_in_common_year_rejected() {
    assert!(prefix("2023-02-29-x").is_none());
}

#[test]
fn century_leap_rule() {
    assert!(prefix("1900-02-29-x").is_none());
    assert!(prefix("2000-02-29-x").is_some());
}
