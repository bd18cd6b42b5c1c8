use chrono::{DateTime, Utc};
use logsync::{AutoTimestampSelector, Timestamp, TimestampSelector};

fn instant(text: &str) -> Timestamp {
    let t = DateTime::parse_from_rfc3339(text).unwrap().with_timezone(&Utc);
    Timestamp::new(t.timestamp(), t.timestamp_subsec_nanos())
}

#[test]
fn detects_common_formats_and_normalizes_offsets() {
    let expected = instant("2026-09-12T10:20:30Z");
    let mut selector = AutoTimestampSelector;
    for timestamp in [
        "2026-09-12 10:20:30",
        "2026/09/12 10:20:30",
        "2026.09.12 10:20:30",
        "2026-09-12T10:20:30Z",
        "2026-09-12t10:20:30Z",
        "2026-09-12t10:20:30z",
        "2026-09-12 10:20:30 UTC",
        "2026-09-12 10:20:30 GMT",
        "2026-09-12T12:20:30+02:00",
        "2026-09-12 05:20:30 -0500",
        "2026-09-12 12:20:30  +0200",
        "2026-09-12 12:20:30\t+0200",
        "Sat, 12 Sep 2026 10:20:30 +0000",
        "Sat, 12 Sep 2026 10:20:30 GMT",
        "12/Sep/2026:12:20:30 +0200",
    ] {
        for line in [
            format!("{timestamp} INFO hello"),
            format!("[{timestamp}] INFO hello"),
        ] {
            let selected = selector
                .select(&line)
                .unwrap_or_else(|| panic!("not detected: {line}"));
            assert_eq!(selected.timestamp, expected, "{line}");
            assert_eq!(selected.message, "INFO hello");
        }
    }
}

#[test]
fn preserves_fractional_seconds() {
    for fraction in ["1", "123", "123456", "123456789"] {
        let expected = instant(&format!("2026-09-12T10:20:30.{fraction}Z"));
        for separator in ['.', ','] {
            let line = format!("2026-09-12 10:20:30{separator}{fraction} message");
            let selected = AutoTimestampSelector.select(&line).unwrap();
            assert_eq!(selected.timestamp, expected);
            assert_eq!(selected.message, "message");
        }
    }
    let selected = AutoTimestampSelector
        .select("2026-09-12T12:20:30.123456789+02:00 message")
        .unwrap();
    let t = DateTime::from_timestamp(selected.timestamp.secs, selected.timestamp.nanos).unwrap();
    assert_eq!(t.to_rfc3339(), "2026-09-12T10:20:30.123456789+00:00");
}

#[test]
fn detects_unix_seconds_milliseconds_microseconds_and_nanoseconds() {
    for (text, seconds, nanos) in [
        ("1700000000", 1_700_000_000, 0),
        ("1700000000123", 1_700_000_000, 123_000_000),
        ("1700000000123456", 1_700_000_000, 123_456_000),
        ("1700000000123456789", 1_700_000_000, 123_456_789),
        ("-1700000000123", -1_700_000_001, 877_000_000),
    ] {
        let selected = AutoTimestampSelector.select(text).unwrap();
        assert_eq!(selected.timestamp, Timestamp::new(seconds, nanos));
        assert_eq!(selected.message, "");
    }
}

#[test]
fn rejects_invalid_ambiguous_and_partial_timestamps() {
    for line in [
        "",
        "Traceback:",
        "12:20:30 INFO",
        "01/02/2026 12:20:30 INFO",
        "2026-02-30 12:20:30 INFO",
        "2026-09-12T10:20:30+25:00 INFO",
        "2026-09-12 10:20:30 +02 INFO",
        "2026-09-12 10:20:30 EST INFO",
        "2026-09-12 10:20:30 CST INFO",
        "2026-09-12 10:20:30  +25:00 INFO",
        "2026-09-12T10:20:30.1234567890 INFO",
        "17000000001234567890 INFO",
        "2026-09-12T10:20:30Zbroken",
        "[2026-09-12 10:20:30 INFO",
        "2026-09-12 10:20:30. INFO",
        "prefix 2026-09-12 10:20:30 INFO",
    ] {
        assert!(
            AutoTimestampSelector.select(line).is_none(),
            "unexpected match: {line}"
        );
    }
}

#[test]
fn leading_whitespace_is_accepted_and_message_whitespace_trimmed() {
    let selected = AutoTimestampSelector
        .select("   2026-09-12 10:20:30      spaced out")
        .unwrap();
    assert_eq!(selected.timestamp, instant("2026-09-12T10:20:30Z"));
    assert_eq!(selected.message, "spaced out");
}

#[test]
fn a_bracketed_timestamp_may_be_followed_directly_by_the_end() {
    let selected = AutoTimestampSelector.select("[1700000000]").unwrap();
    assert_eq!(selected.timestamp, Timestamp::new(1_700_000_000, 0));
    assert_eq!(selected.message, "");
    assert!(AutoTimestampSelector.select("[1700000000]x").is_none());
}

#[test]
fn apache_and_rfc2822_variants() {
    let expected = instant("2026-09-12T10:20:30Z");
    for line in [
        "Sat, 12 Sep 2026 10:20:30 UT hi",
        "12/Sep/2026:10:20:30 +0000 hi",
    ] {
        let selected = AutoTimestampSelector.select(line).unwrap();
        assert_eq!(selected.timestamp, expected, "{line}");
        assert_eq!(selected.message, "hi");
    }
    // The shape allows UTC, but chrono's RFC 2822 reader does not.
    assert!(AutoTimestampSelector.select("Sat, 12 Sep 2026 10:20:30 UTC hi").is_none());
    let early = AutoTimestampSelector.select("Sat, 5 Sep 2026 10:20:30 +0000 x").unwrap();
    assert_eq!(early.timestamp, instant("2026-09-05T10:20:30Z"));
}

#[test]
fn other_epoch_lengths_are_not_detected() {
    for line in ["170000000", "17000000001", "170000000012345"] {
        assert!(AutoTimestampSelector.select(line).is_none(), "{line}");
    }
}

#[test]
fn zoneless_timestamps_followed_by_an_offset_are_accepted_in_brackets() {
    let selected = AutoTimestampSelector.select("[2026-09-12 10:20:30] +02 INFO").unwrap();
    assert_eq!(selected.timestamp, instant("2026-09-12T10:20:30Z"));
    assert_eq!(selected.message, "+02 INFO");
}

#[test]
fn digits_of_other_scripts_are_matched_but_not_read() {
    let mut selector = AutoTimestampSelector;
    // The offset is part of the timestamp, and chrono reads no such digits.
    assert!(selector
        .select("2026-09-12 10:20:30 +\u{660}\u{662}\u{660}\u{660} INFO hello")
        .is_none());
    assert!(selector.select("\u{FF12}\u{FF10}\u{FF12}\u{FF16}-09-12 10:20:30 x").is_none());
    assert!(selector.select("2026-09-12 10:20:30.\u{967} x").is_none());
    let selected = selector.select("2026-09-12 10:20:30 \u{967} x").unwrap();
    assert_eq!(selected.timestamp, instant("2026-09-12T10:20:30Z"));
    assert_eq!(selected.message, "\u{967} x");
}

#[test]
fn a_zone_that_does_not_close_the_timestamp_is_part_of_the_message() {
    let mut selector = AutoTimestampSelector;
    let expected = instant("2026-09-12T10:00:00Z");
    let selected = selector.select("2026-09-12 10:00:00 zookeeper started").unwrap();
    assert_eq!(selected.timestamp, expected);
    assert_eq!(selected.message, "zookeeper started");
    let selected = selector.select("2026-09-12 10:00:00 UTCnews").unwrap();
    assert_eq!(selected.timestamp, expected);
    assert_eq!(selected.message, "UTCnews");
    let selected = selector.select("2026-09-12 10:00:00 Z started").unwrap();
    assert_eq!(selected.timestamp, expected);
    assert_eq!(selected.message, "started");
    assert!(selector.select("2026-09-12T10:20:30Zbroken").is_none());
    assert!(selector.select("[2026-09-12 10:00:00 zoo] x").is_none());
}
