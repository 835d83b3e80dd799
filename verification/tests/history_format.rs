use notify_history::daemon::prepend_content;
use notify_history::escape::{escape_value, unescape_value};
use notify_history::notification::{
    datetime_format_for_width, datetime_text, history_content, history_timestamps_fit,
    line_timestamp_fits, parse_history, Notification,
};

fn notif(ts: i64, app: &str, summary: &str, body: &str) -> Notification {
    Notification {
        timestamp: ts,
        app_name: app.to_string(),
        summary: summary.to_string(),
        body: body.to_string(),
    }
}

#[test]
fn escape_replaces_control_characters() {
    assert_eq!(escape_value("a\nb\tc\rd\\e"), "a\\nb\\tc\\rd\\\\e");
    assert_eq!(escape_value("\x08\x0C"), "\\b\\f");
    assert_eq!(escape_value("plain [*] text"), "plain [*] text");
}

#[test]
fn unescape_reverses_escape() {
    for s in ["", "a\nb", "tab\there", "back\\slash", "\x08\x0C\r", "ünïcödé"] {
        assert_eq!(unescape_value(&escape_value(s)), s);
    }
}

#[test]
fn unescape_keeps_unknown_escapes_and_a_final_backslash() {
    assert_eq!(unescape_value("a\\xb"), "a\\xb");
    assert_eq!(unescape_value("end\\"), "end\\");
    assert_eq!(unescape_value("\\n\\t"), "\n\t");
}

#[test]
fn from_line_reads_the_four_fields() {
    let n = Notification::from_line("1700000000123[*]App[*]Sum[*]Body\\nmore").unwrap();
    assert_eq!(n.timestamp, 1700000000123);
    assert_eq!(n.app_name, "App");
    assert_eq!(n.summary, "Sum");
    assert_eq!(n.body, "Body\nmore");
}

#[test]
fn from_line_scales_second_timestamps() {
    let n = Notification::from_line(" 1700000000 [*]a[*]b[*]c").unwrap();
    assert_eq!(n.timestamp, 1700000000000);
}

#[test]
fn from_line_keeps_separators_in_the_body() {
    let n = Notification::from_line("1700000000000[*]a[*]b[*]c[*]d").unwrap();
    assert_eq!(n.body, "c[*]d");
}

#[test]
fn from_line_rejects_malformed_lines() {
    assert!(Notification::from_line("1700000000000[*]a[*]b").is_none());
    assert!(Notification::from_line("abc[*]a[*]b[*]c").is_none());
    assert!(Notification::from_line("").is_none());
}

#[test]
fn to_line_and_from_line_round_trip() {
    let n = notif(1700000000456, "Mail app", "Hi\nthere", "a\\b\tc");
    let line = n.to_line();
    assert_eq!(line, "1700000000456[*]Mail app[*]Hi\\nthere[*]a\\\\b\\tc");
    let m = Notification::from_line(&line).unwrap();
    assert_eq!(m.timestamp, n.timestamp);
    assert_eq!(m.summary, n.summary);
    assert_eq!(m.body, n.body);
}

#[test]
fn search_text_joins_summary_app_and_body() {
    let n = notif(0, "App", "Sum", "Body");
    assert_eq!(n.search_text(), "Sum App Body");
}

#[test]
fn display_body_expands_escapes_unless_asked_not_to() {
    let n = notif(0, "a", "b", "one\\ntwo\\tthree");
    assert_eq!(n.display_body(false), "one\ntwo\tthree");
    assert_eq!(n.display_body(true), "one\\ntwo\\tthree");
}

#[test]
fn datetime_formats_shrink_with_the_width() {
    assert_eq!(datetime_format_for_width(23), "%Y-%m-%d %H:%M:%S%.3f");
    assert_eq!(datetime_format_for_width(22), "%m-%d %H:%M:%S%.3f");
    assert_eq!(datetime_format_for_width(14), "%m-%d %H:%M:%S");
    assert_eq!(datetime_format_for_width(11), "%d %H:%M:%S");
    assert_eq!(datetime_format_for_width(3), "%H:%M:%S");
}

#[test]
fn datetime_text_falls_back_to_the_timestamp() {
    assert_eq!(datetime_text(None, -42), "ts:-42");
    assert_eq!(datetime_text(Some("12:00:00".to_string()), 5), "12:00:00");
}

#[test]
fn datetime_of_a_notification_is_shown() {
    let n = notif(1700000000000, "a", "b", "c");
    let s = n.datetime_str_for_width(8);
    assert_eq!(s.chars().count(), 8);
    assert_eq!(s.chars().nth(2), Some(':'));
}

/// Whether `s` follows `pattern`, where `0` stands for an ASCII digit.
fn follows(s: &str, pattern: &str) -> bool {
    s.chars().count() == pattern.chars().count()
        && s.chars().zip(pattern.chars()).all(|(c, p)| if p == '0' { c.is_ascii_digit() } else { c == p })
}

#[test]
fn datetime_takes_the_widest_format_that_fits() {
    let n = notif(1700000000123, "a", "b", "c");
    assert!(follows(&n.datetime_str_for_width(40), "0000-00-00 00:00:00.000"));
    assert!(n.datetime_str_for_width(40).ends_with(".123"));
    assert!(follows(&n.datetime_str_for_width(22), "00-00 00:00:00.000"));
    assert!(follows(&n.datetime_str_for_width(17), "00-00 00:00:00"));
    assert!(follows(&n.datetime_str_for_width(13), "00 00:00:00"));
    assert!(follows(&n.datetime_str_for_width(10), "00:00:00"));
    assert!(follows(&n.datetime_str_for_width(0), "00:00:00"));
}

#[test]
fn datetime_out_of_range_shows_the_timestamp() {
    let n = notif(i64::MAX, "a", "b", "c");
    assert_eq!(n.datetime_str_for_width(40), format!("ts:{}", i64::MAX));
}

#[test]
fn history_file_round_trips() {
    let ns = vec![notif(1700000000001, "A", "s1", "b1\nb2"), notif(1700000000002, "B", "s2", "")];
    let content = history_content(&ns);
    assert_eq!(content, "1700000000001[*]A[*]s1[*]b1\\nb2\n1700000000002[*]B[*]s2[*]\n");
    let back = parse_history(&content);
    assert_eq!(back.len(), 2);
    assert_eq!(back[0].body, "b1\nb2");
    assert_eq!(back[1].app_name, "B");
}

#[test]
fn parse_history_skips_bad_lines() {
    let back = parse_history("junk\n1700000000000[*]a[*]b[*]c\n\nx[*]y[*]z[*]w\n");
    assert_eq!(back.len(), 1);
    assert_eq!(back[0].summary, "b");
}

#[test]
fn timestamp_guards() {
    assert!(line_timestamp_fits("1700000000000[*]a[*]b[*]c"));
    assert!(!line_timestamp_fits("-99999999999999999[*]a[*]b[*]c"));
    assert!(history_timestamps_fit("1[*]a[*]b[*]c\n"));
}

#[test]
fn prepend_puts_the_new_line_first() {
    assert_eq!(prepend_content("old1\nold2\n", "new", 0), "new\nold1\nold2\n");
    assert_eq!(prepend_content("", "new", 0), "new\n");
}

#[test]
fn prepend_keeps_at_most_max_history_lines() {
    assert_eq!(prepend_content("a\nb\nc\n", "new", 3), "new\na\nb\n");
    assert_eq!(prepend_content("a\nb\nc\n", "new", 1), "new\n");
    assert_eq!(prepend_content("a\n", "new", 5), "new\na\n");
}
