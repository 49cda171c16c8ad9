//! The `Mon-DD-YY` date codec.

use coach::date::{parse_date, Date};

#[test]
fn parses_scenario_birth_date() {
    assert_eq!(parse_date("Jan-01-05"), Ok(Date { year: 2005, month: 1, day: 1 }));
}

#[test]
fn parses_recent_meet_date() {
    assert_eq!(parse_date("Jan-05-24"), Ok(Date { year: 2024, month: 1, day: 5 }));
}

#[test]
fn two_digit_year_pivot() {
    assert_eq!(parse_date("Jun-15-68").unwrap().year, 2068);
    assert_eq!(parse_date("Jun-15-69").unwrap().year, 1969);
    assert_eq!(parse_date("Jun-15-99").unwrap().year, 1999);
    assert_eq!(parse_date("Jun-15-00").unwrap().year, 2000);
}

#[test]
fn month_abbreviations_ignore_case() {
    assert_eq!(parse_date("JAN-01-05"), Ok(Date { year: 2005, month: 1, day: 1 }));
    assert_eq!(parse_date("dec-31-99"), Ok(Date { year: 1999, month: 12, day: 31 }));
}

#[test]
fn full_month_names_are_accepted() {
    assert_eq!(parse_date("January-01-05"), Ok(Date { year: 2005, month: 1, day: 1 }));
    assert_eq!(parse_date("september-30-10"), Ok(Date { year: 2010, month: 9, day: 30 }));
    assert_eq!(parse_date("DECEMBER-25-99"), Ok(Date { year: 1999, month: 12, day: 25 }));
}

#[test]
fn single_digit_day() {
    assert_eq!(parse_date("Mar-7-10"), Ok(Date { year: 2010, month: 3, day: 7 }));
}

#[test]
fn leap_day_exists_only_in_leap_years() {
    assert!(parse_date("Feb-29-04").is_ok());
    assert!(parse_date("Feb-29-05").is_err());
    // 2000 is divisible by 400, so it is a leap year
    assert!(parse_date("Feb-29-00").is_ok());
}

#[test]
fn rejects_nonexistent_days() {
    assert!(parse_date("Jan-32-05").is_err());
    assert!(parse_date("Apr-31-05").is_err());
    assert!(parse_date("Jan-00-05").is_err());
}

#[test]
fn rejects_malformed_tokens() {
    assert!(parse_date("").is_err());
    assert!(parse_date("Foo-01-05").is_err());
    assert!(parse_date("Jan-01-2005").is_err());
    assert!(parse_date("Jan-01").is_err());
    assert!(parse_date("Jan-01-05-extra").is_err());
    assert!(parse_date("Janu-01-05").is_err());
    assert!(parse_date("Jan/01/05").is_err());
}
