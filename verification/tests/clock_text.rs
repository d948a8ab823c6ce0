use daft::agent::heartbeat::HeartbeatSubsystem;
use daft::clock::{rfc3339_or_now, UtcTime};
use daft::commands::history::log_json_entry;
use daft::text::{first_line_of, first_line_trimmed, lines_of, str_contains, str_starts_with};

#[test]
fn rfc3339_texts() {
    let hb = HeartbeatSubsystem::new(".dft");
    assert_eq!(hb.record_at("a", None, None, UtcTime { secs: 0, nanos: 0 }, 1).timestamp_iso, "1970-01-01T00:00:00+00:00");
    assert_eq!(
        hb.record_at("a", None, None, UtcTime { secs: 86_400, nanos: 500_000_000 }, 1).timestamp_iso,
        "1970-01-02T00:00:00.500+00:00"
    );
    assert_eq!(rfc3339_or_now(0), "1970-01-01T00:00:00+00:00");
    assert_eq!(rfc3339_or_now(1_700_000_000), "2023-11-14T22:13:20+00:00");
    let now = rfc3339_or_now(i64::MIN);
    assert!(now.ends_with("+00:00"));
}

#[test]
fn the_clock_reads_a_time_after_the_epoch() {
    let hb = HeartbeatSubsystem::new(".dft").record("a", None, None, 1);
    assert!(hb.timestamp > 1_600_000_000);
}

#[test]
fn log_entries_date_in_rfc2822() {
    let e = log_json_entry("abc", "Alice", "a@x", 0, "msg");
    assert_eq!(e.date, "Thu, 1 Jan 1970 00:00:00 +0000");
    let far = log_json_entry("abc", "Alice", "a@x", i64::MAX, "msg");
    assert_eq!(far.date, "");
}

#[test]
fn text_helpers() {
    assert!(str_contains("merge [weave] done", "[weave]"));
    assert!(!str_contains("merge weave", "[weave]"));
    assert!(str_contains("abc", ""));
    assert!(str_starts_with("--type=ai", "--type="));
    assert_eq!(first_line_of("one\r\ntwo"), "one");
    assert_eq!(first_line_of(""), "");
    assert_eq!(first_line_trimmed("  padded  \nrest"), "padded");
    assert_eq!(lines_of("a\n\nb\n"), vec!["a".to_string(), "".to_string(), "b".to_string()]);
}
