use fledge_standup::since::{since_from_lowered, since_to_iso_date, since_to_iso_date_at, IntErrorKind, SinceError};

// 2026-04-25T12:00:00Z
const NOW: i64 = 1_777_118_400;

fn at(spec: &str) -> Result<String, SinceError> {
    since_to_iso_date_at(spec, NOW)
}

#[test]
fn relative_weeks_ago() {
    assert_eq!(at("1 week ago"), Ok("2026-04-18".to_string()));
    assert_eq!(at("2 weeks ago"), Ok("2026-04-11".to_string()));
}

#[test]
fn relative_days_and_hours_ago() {
    assert_eq!(at("7 days ago"), Ok("2026-04-18".to_string()));
    assert_eq!(at("1 day ago"), Ok("2026-04-24".to_string()));
    assert_eq!(at("15 hours ago"), Ok("2026-04-24".to_string()));
    assert_eq!(at("12 hours ago"), Ok("2026-04-25".to_string()));
    assert_eq!(at("24 hours ago"), Ok("2026-04-24".to_string()));
}

#[test]
fn relative_months_and_years_ago() {
    assert_eq!(at("2 months ago"), Ok("2026-02-24".to_string()));
    assert_eq!(at("1 year ago"), Ok("2025-04-25".to_string()));
}

#[test]
fn negative_count_goes_forward() {
    assert_eq!(at("-5 days ago"), Ok("2026-04-30".to_string()));
}

#[test]
fn plural_suffix_and_case_and_spaces() {
    assert_eq!(at("  3 DAYS AGO  "), Ok("2026-04-22".to_string()));
    assert_eq!(at("1 dayss ago"), Ok("2026-04-24".to_string()));
    assert_eq!(at("+1   week    ago"), Ok("2026-04-18".to_string()));
}

#[test]
fn yesterday_and_today() {
    assert_eq!(at("yesterday"), Ok("2026-04-24".to_string()));
    assert_eq!(at("Today"), Ok("2026-04-25".to_string()));
    assert_eq!(at("Yesterday"), Ok("2026-04-24".to_string()));
}

#[test]
fn iso_passthrough() {
    assert_eq!(at("2026-04-01"), Ok("2026-04-01".to_string()));
    assert_eq!(at("2026-04-20T10:00:00"), Ok("2026-04-20".to_string()));
    assert_eq!(at("1999-12-31 extra"), Ok("1999-12-31".to_string()));
}

#[test]
fn relative_form_errors() {
    assert_eq!(since_from_lowered(" ago", NOW), Err(SinceError::ExpectedNumber));
    assert_eq!(at(" ago"), Err(SinceError::CannotConvert));
    assert_eq!(at("3 ago"), Err(SinceError::ExpectedUnit));
    assert_eq!(at("3 days and ago"), Err(SinceError::Unrecognized));
    assert_eq!(
        at("three days ago"),
        Err(SinceError::ExpectedInteger(IntErrorKind::InvalidDigit))
    );
    assert_eq!(
        at("99999999999999999999 days ago"),
        Err(SinceError::ExpectedInteger(IntErrorKind::PosOverflow))
    );
    assert_eq!(
        at("-99999999999999999999 days ago"),
        Err(SinceError::ExpectedInteger(IntErrorKind::NegOverflow))
    );
    assert_eq!(at("- days ago"), Err(SinceError::ExpectedInteger(IntErrorKind::InvalidDigit)));
    assert_eq!(
        at("2 fortnights ago"),
        Err(SinceError::UnsupportedUnit("fortnight".to_string()))
    );
}

#[test]
fn unconvertible_windows() {
    assert_eq!(at("last tuesday"), Err(SinceError::CannotConvert));
    assert_eq!(at("2026/04/01"), Err(SinceError::CannotConvert));
    assert_eq!(at("short"), Err(SinceError::CannotConvert));
}

#[test]
fn overflowing_and_out_of_range_windows() {
    assert_eq!(at("9223372036854775807 hours ago"), Err(SinceError::DurationOverflow));
    assert_eq!(at("9223372036854775807 months ago"), Err(SinceError::MultiplyOverflow));
    assert_eq!(at("100000 years ago"), Err(SinceError::OutOfRange));
    assert_eq!(at("-100000 years ago"), Err(SinceError::OutOfRange));
}

#[test]
fn slicing_inside_a_character() {
    // Nine ASCII bytes, then a two-byte character across byte offset ten.
    assert_eq!(at("abcdefghié"), Err(SinceError::NotCharBoundary));
    // Ten ASCII bytes first: no slicing problem, just not a date.
    assert_eq!(at("abcdefghijé"), Err(SinceError::CannotConvert));
}

#[test]
fn unicode_lowercase_is_applied() {
    // KELVIN SIGN lowercases to an ASCII 'k'.
    assert_eq!(at("1 wee\u{212A} ago"), Ok("2026-04-18".to_string()));
}

#[test]
fn current_instant_window() {
    let today = since_to_iso_date("today").unwrap();
    assert_eq!(today.len(), 10);
    assert_eq!(since_to_iso_date("2026-01-02"), Ok("2026-01-02".to_string()));
}
