//! What stands before a message.

use brenn_server::prefix::{build_cc_message_text, cc_message_text_at, LocalTime};

/// 2026-03-26 05:32:00 UTC.
const TEST_SECS: i64 = 1_774_503_120;

fn message(
    text: &str,
    device: Option<&str>,
    username: bool,
    timestamp: bool,
    with_device: bool,
) -> String {
    cc_message_text_at(
        text,
        "alice",
        device,
        TEST_SECS,
        "Asia/Tokyo",
        username,
        timestamp,
        with_device,
    )
    .unwrap()
}

#[test]
fn cc_message_no_prefix() {
    assert_eq!(message("hello", None, false, false, false), "hello");
}

#[test]
fn cc_message_username_only() {
    assert_eq!(message("hello", None, true, false, false), "[alice] hello");
}

#[test]
fn cc_message_timestamp_only() {
    assert_eq!(
        message("hello", None, false, true, false),
        "[2026-03-26 14:32 Asia/Tokyo] hello"
    );
}

#[test]
fn cc_message_both() {
    assert_eq!(
        message("hello", None, true, true, false),
        "[alice 2026-03-26 14:32 Asia/Tokyo] hello"
    );
}

#[test]
fn cc_message_username_and_device() {
    assert_eq!(message("hi", Some("laptop"), true, false, true), "[alice@laptop] hi");
}

#[test]
fn cc_message_device_only() {
    assert_eq!(message("hi", Some("laptop"), false, false, true), "[@laptop] hi");
}

#[test]
fn cc_message_all_three() {
    assert_eq!(
        message("hi", Some("laptop"), true, true, true),
        "[alice@laptop 2026-03-26 14:32 Asia/Tokyo] hi"
    );
}

#[test]
fn cc_message_device_unknown_when_none() {
    assert_eq!(message("hi", None, true, false, true), "[alice@unknown] hi");
}

#[test]
fn the_clock_is_the_zones_own() {
    let at = |secs: i64, zone: &str| {
        cc_message_text_at("x", "u", None, secs, zone, false, true, false)
    };
    assert_eq!(at(0, "UTC").as_deref(), Some("[1970-01-01 00:00 UTC] x"));
    assert_eq!(
        at(0, "America/New_York").as_deref(),
        Some("[1969-12-31 19:00 America/New_York] x")
    );
    assert_eq!(at(0, "Nowhere/Land"), None);
    assert_eq!(at(i64::MAX, "UTC"), None);
}

#[test]
fn the_hour_and_the_minute_take_two_digits() {
    let clock = LocalTime {
        date: "2026-01-02".to_string(),
        hour: 3,
        minute: 4,
        zone: "UTC".to_string(),
    };
    assert_eq!(
        build_cc_message_text("m", "u", None, &clock, false, true, true),
        "[@unknown 2026-01-02 03:04 UTC] m"
    );
}
