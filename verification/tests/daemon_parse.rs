use notify_history::daemon::{line_acceptable, process_line, ParseState};
use notify_history::notification::Notification;

fn feed(lines: &[&str]) -> Vec<Notification> {
    let mut state = ParseState::Idle;
    let mut out = Vec::new();
    for l in lines {
        assert!(line_acceptable(l, &state));
        if let Some(n) = process_line(l, &mut state) {
            out.push(n);
        }
    }
    out
}

const HEADER: &str = "method call time=1700000000.123456 sender=:1.50 -> destination=:1.20 serial=7 path=/org/freedesktop/Notifications; interface=org.freedesktop.Notifications; member=Notify";

#[test]
fn a_notify_call_gives_a_notification() {
    let out = feed(&[
        HEADER,
        "   string \"Firefox\"",
        "   uint32 0",
        "   string \"firefox\"",
        "   string \"Download done\"",
        "   string \"file.zip saved\"",
        "   array [",
        "   ]",
    ]);
    assert_eq!(out.len(), 1);
    assert_eq!(out[0].timestamp, 1700000000123);
    assert_eq!(out[0].app_name, "Firefox");
    assert_eq!(out[0].summary, "Download done");
    assert_eq!(out[0].body, "file.zip saved");
}

#[test]
fn a_multi_line_body_is_joined_and_escaped() {
    let out = feed(&[
        HEADER,
        "   string \"App\"",
        "   uint32 1",
        "   string \"\"",
        "   string \"Title\"",
        "   string \"line one",
        "line two",
        "line three\"",
    ]);
    assert_eq!(out.len(), 1);
    assert_eq!(out[0].body, "line one\\nline two\\nline three");
}

#[test]
fn escaped_quotes_do_not_end_a_string() {
    let out = feed(&[
        HEADER,
        "   string \"App\"",
        "   uint32 1",
        "   string \"\"",
        "   string \"say \\\"hi\\\"\"",
        "   string \"body\"",
    ]);
    assert_eq!(out.len(), 1);
    assert_eq!(out[0].summary, "say \\\\\"hi\\\\\"");
}

#[test]
fn other_calls_are_ignored() {
    let out = feed(&[
        "signal time=1700000000.0 sender=org.freedesktop.DBus -> destination=:1.9 member=NameAcquired",
        "   string \"x\"",
        "   string \"y\"",
    ]);
    assert!(out.is_empty());
}

#[test]
fn a_header_without_time_uses_the_clock() {
    let out = feed(&[
        "method call sender=:1.5 member=Notify",
        "   string \"A\"",
        "   uint32 0",
        "   string \"\"",
        "   string \"S\"",
        "   string \"B\"",
    ]);
    assert_eq!(out.len(), 1);
    assert!(out[0].timestamp > 1_600_000_000_000);
}

#[test]
fn short_fractions_are_padded_to_milliseconds() {
    let out = feed(&[
        "method call time=12.5 member=Notify",
        "   string \"A\"",
        "   uint32 0",
        "   string \"\"",
        "   string \"S\"",
        "   string \"B\"",
    ]);
    assert_eq!(out[0].timestamp, 12500);
}

use notify_history::daemon::{
    assign_field, ends_with_unescaped_quote, extract_timestamp, finish, frac_to_ms,
    is_primitive_field, NotifyCollecting,
};

#[test]
fn quotes_escaped_by_backslashes() {
    assert!(ends_with_unescaped_quote("abc\""));
    assert!(!ends_with_unescaped_quote("abc\\\""));
    assert!(ends_with_unescaped_quote("abc\\\\\""));
    assert!(!ends_with_unescaped_quote("abc"));
    assert!(!ends_with_unescaped_quote(""));
    assert!(ends_with_unescaped_quote("\""));
}

#[test]
fn primitive_argument_lines() {
    assert!(is_primitive_field("uint32 0"));
    assert!(is_primitive_field("int64 -5"));
    assert!(is_primitive_field("boolean true"));
    assert!(is_primitive_field("byte 3"));
    assert!(!is_primitive_field("string \"x\""));
    assert!(!is_primitive_field("uint32"));
}

#[test]
fn fractions_become_milliseconds() {
    assert_eq!(frac_to_ms("123456"), 123);
    assert_eq!(frac_to_ms("5"), 500);
    assert_eq!(frac_to_ms("05"), 50);
    assert_eq!(frac_to_ms(""), 0);
    assert_eq!(frac_to_ms("12a"), 0);
}

#[test]
fn header_times_in_milliseconds() {
    assert_eq!(extract_timestamp("method call time=1700000000.123456 member=Notify"), 1700000000123);
    assert_eq!(extract_timestamp("x time=7 member=Notify"), 7000);
}

#[test]
fn arguments_fill_their_fields() {
    let (mut a, mut s, mut b) = (String::from("a"), String::from("s"), String::from("b"));
    assign_field(0, "app", &mut a, &mut s, &mut b);
    assign_field(2, "icon", &mut a, &mut s, &mut b);
    assign_field(3, "sum", &mut a, &mut s, &mut b);
    assign_field(4, "body", &mut a, &mut s, &mut b);
    assert_eq!((a.as_str(), s.as_str(), b.as_str()), ("app", "sum", "body"));
}

#[test]
fn collected_arguments_make_a_notification() {
    let c = NotifyCollecting {
        timestamp: 42,
        field_idx: 5,
        app_name: "A".to_string(),
        summary: "S".to_string(),
        body: "B".to_string(),
        string_buf: None,
    };
    let n = finish(&c);
    assert_eq!((n.timestamp, n.app_name.as_str(), n.summary.as_str(), n.body.as_str()), (42, "A", "S", "B"));
}

#[test]
fn one_notification_per_call() {
    let out = feed(&[
        HEADER,
        "   string \"A\"",
        "   uint32 0",
        "   string \"\"",
        "   string \"S\"",
        "   string \"B\"",
        "   string \"extra\"",
        "   string \"more\"",
        "   uint32 7",
        "signal time=1.0 member=Other",
        "   string \"x\"",
    ]);
    assert_eq!(out.len(), 1);
}
