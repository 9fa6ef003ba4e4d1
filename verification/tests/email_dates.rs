//! Dates shown in the e-mail list.

use applymonitor::dates::{format_date, pick_date_text};

#[test]
fn rfc3339_dates_are_shortened() {
    assert_eq!(format_date("2024-01-05T10:00:00Z"), "Jan 05, 2024");
    assert_eq!(format_date("2023-12-31T23:59:59+02:00"), "Dec 31, 2023");
}

#[test]
fn mail_header_dates_are_shortened() {
    assert_eq!(format_date("Fri, 05 Jan 2024 10:00:00 +0000"), "Jan 05, 2024");
}

#[test]
fn unparsed_dates_are_kept() {
    assert_eq!(format_date("yesterday"), "yesterday");
    assert_eq!(format_date(""), "");
    assert_eq!(format_date("2024-01-05"), "2024-01-05");
}

#[test]
fn date_text_choice() {
    assert_eq!(pick_date_text(Some("A".to_string()), Some("B".to_string()), "C"), "A");
    assert_eq!(pick_date_text(None, Some("B".to_string()), "C"), "B");
    assert_eq!(pick_date_text(None, None, "C"), "C");
}
