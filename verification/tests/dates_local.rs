use fledge_standup::dates::{
    date_text, format_iso_date, iso_to_local_date, local_date_at, local_date_from_parsed,
    local_offset, local_offset_or_utc, today_str,
};

#[test]
fn formats_padded_dates() {
    assert_eq!(format_iso_date(2026, 4, 5), "2026-04-05");
    assert_eq!(format_iso_date(7, 1, 9), "0007-01-09");
    assert_eq!(format_iso_date(-1, 12, 31), "-001-12-31");
    assert_eq!(format_iso_date(12345, 10, 10), "12345-10-10");
}

#[test]
fn utc_dates_of_instants() {
    assert_eq!(date_text(0), "1970-01-01");
    assert_eq!(date_text(-1), "1969-12-31");
    assert_eq!(date_text(951_782_400), "2000-02-29");
    assert_eq!(date_text(253_402_300_799), "9999-12-31");
    assert_eq!(date_text(-377_705_116_800), "-9999-01-01");
}

#[test]
fn local_dates_shift_by_offset() {
    // 2026-04-25T23:30:00Z
    let t = 1_777_159_800;
    assert_eq!(local_date_at(t, 0), Some("2026-04-25".to_string()));
    assert_eq!(local_date_at(t, 3600), Some("2026-04-26".to_string()));
    assert_eq!(local_date_at(t, -86_399), Some("2026-04-24".to_string()));
    assert_eq!(local_date_at(t, -84_600), Some("2026-04-25".to_string()));
    assert_eq!(local_date_at(253_402_300_799, 1), None);
}

#[test]
fn rfc3339_commit_dates_in_local_time() {
    assert_eq!(
        iso_to_local_date("2026-04-25T23:30:00Z", 3600),
        Some("2026-04-26".to_string())
    );
    assert_eq!(
        iso_to_local_date("2026-04-26T01:00:00+02:00", 0),
        Some("2026-04-25".to_string())
    );
    assert_eq!(
        iso_to_local_date("2026-04-25T10:00:00-07:00", -25_200),
        Some("2026-04-25".to_string())
    );
}

#[test]
fn unparsable_dates_fall_back_to_their_prefix() {
    assert_eq!(iso_to_local_date("2026-04-25 garbage", 0), Some("2026-04-25".to_string()));
    assert_eq!(iso_to_local_date("soon", 0), Some("soon".to_string()));
    assert_eq!(local_date_from_parsed("abcdefghijkl", None, 0), Some("abcdefghij".to_string()));
    assert_eq!(local_date_from_parsed("x", Some(0), 0), Some("1970-01-01".to_string()));
}

#[test]
fn today_is_a_date() {
    let today = today_str().unwrap();
    assert_eq!(today.len(), 10);
    assert_eq!(&today[4..5], "-");
}

#[test]
fn offset_falls_back_to_utc() {
    assert_eq!(local_offset_or_utc(Some(3600)), 3600);
    assert_eq!(local_offset_or_utc(Some(-18000)), -18000);
    assert_eq!(local_offset_or_utc(None), 0);
    let off = local_offset();
    assert!((-93_599..=93_599).contains(&off));
}
