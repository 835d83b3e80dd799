//! One notification and its line in the history file:
//! `<timestamp>[*]<app_name>[*]<summary>[*]<body>`, each text field escaped.
use vstd::prelude::*;

use chrono::TimeZone;

use crate::escape::{escape_char, escape_value, spec_escape, spec_unescape, unescape_value};
use crate::escape::lemma_unescape_escape;
use crate::text::{
    chars_of, int_decimal, lemma_first_index_of, spec_lines, strip_cr, trim_end, split_lines, trim_string, views, is_digit, is_ws, lemma_nat_digits, lemma_parse_int_decimal, nat_digits, trim_start, parse_i64, push_all, push_i64, spec_parse_i64, string_from_range,
    trim, trim_bounds,
};

verus! {

// ── The line format ───────────────────────────────────────────────────────────

/// The field separator `[*]`.
pub open spec fn delimiter() -> Seq<char> {
    seq!['[', '*', ']']
}

/// Whether the separator starts at index `i` of `s`.
pub open spec fn is_delim_at(s: Seq<char>, i: int) -> bool {
    0 <= i && i + 3 <= s.len() && s[i] == '[' && s[i + 1] == '*' && s[i + 2] == ']'
}

/// Whether `s` contains the separator anywhere.
pub open spec fn has_delim(s: Seq<char>) -> bool {
    exists|i: int| is_delim_at(s, i)
}

/// The first index `>= i` at which the separator starts, or `s.len()`.
pub open spec fn find_delim_from(s: Seq<char>, i: int) -> int
    decreases s.len() - i,
{
    if i < 0 || i + 3 > s.len() {
        s.len() as int
    } else if is_delim_at(s, i) {
        i
    } else {
        find_delim_from(s, i + 1)
    }
}

/// `s` split at its first separator, as `str::splitn` splits it.
pub open spec fn split_once(s: Seq<char>) -> Option<(Seq<char>, Seq<char>)> {
    let k = find_delim_from(s, 0);
    if k >= s.len() {
        None
    } else {
        Some((s.take(k), s.skip(k + 3)))
    }
}

/// The four parts of `line.splitn(4, "[*]")`, when there are four.
pub open spec fn split4(s: Seq<char>) -> Option<(Seq<char>, Seq<char>, Seq<char>, Seq<char>)> {
    match split_once(s) {
        None => None,
        Some((a, r1)) => match split_once(r1) {
            None => None,
            Some((b, r2)) => match split_once(r2) {
                None => None,
                Some((c, d)) => Some((a, b, c, d)),
            },
        },
    }
}

/// Timestamps below this are whole seconds (written by older daemons).
pub open spec fn seconds_limit() -> int {
    100_000_000_000
}

/// A stored timestamp in milliseconds: whole seconds are scaled by 1000.
pub open spec fn normalize_timestamp(raw: int) -> int {
    if raw < seconds_limit() {
        raw * 1000
    } else {
        raw
    }
}

/// The timestamp written at the start of a history line, when the line has
/// four fields and the first one (trimmed) is an `i64`.
pub open spec fn raw_timestamp(line: Seq<char>) -> Option<int> {
    match split4(line) {
        None => None,
        Some((a, b, c, d)) => spec_parse_i64(trim(a)),
    }
}

/// Whether reading `line` stays clear of the overflow of scaling seconds to
/// milliseconds, the one input on which reading a line panics.
pub open spec fn timestamp_fits(line: Seq<char>) -> bool {
    raw_timestamp(line) matches Some(raw) ==> raw >= -9_223_372_036_854_775
}

/// A notification as plain values: timestamp (ms), app name, summary, body.
pub type NotifView = (int, Seq<char>, Seq<char>, Seq<char>);

/// What reading one history line gives.
pub open spec fn spec_from_line(line: Seq<char>) -> Option<NotifView> {
    match split4(line) {
        None => None,
        Some((a, b, c, d)) => match spec_parse_i64(trim(a)) {
            None => None,
            Some(raw) => Some(
                (normalize_timestamp(raw), spec_unescape(b), spec_unescape(c), spec_unescape(d)),
            ),
        },
    }
}

/// The history line written for a notification.
pub open spec fn spec_to_line(n: NotifView) -> Seq<char> {
    int_decimal(n.0) + delimiter() + spec_escape(n.1) + delimiter() + spec_escape(n.2)
        + delimiter() + spec_escape(n.3)
}

// ── Notification ──────────────────────────────────────────────────────────────

/// One captured desktop notification.
#[derive(Debug, Clone)]
pub struct Notification {
    /// Milliseconds since the Unix epoch.
    pub timestamp: i64,
    pub app_name: String,
    pub summary: String,
    /// Body text with real newlines (unescaped on read)
    pub body: String,
}

impl View for Notification {
    type V = NotifView;

    open spec fn view(&self) -> NotifView {
        (self.timestamp as int, self.app_name@, self.summary@, self.body@)
    }
}

/// The first separator at or after `from` in `v`, or `v.len()`.
fn find_delim(v: &Vec<char>, from: usize) -> (r: usize)
    requires
        from <= v.len(),
    ensures
        r as int == from + find_delim_from(v@.skip(from as int), 0),
        from <= r <= v.len(),
        r < v.len() ==> r + 3 <= v.len(),
{
    let ghost s = v@.skip(from as int);
    let n = v.len();
    let mut i = from;
    proof {
        lemma_find_delim_bounds(s, 0);
    }
    while n - i >= 3
        invariant
            from <= i <= n,
            n == v.len(),
            s == v@.skip(from as int),
            find_delim_from(s, 0) == find_delim_from(s, i - from),
            find_delim_from(s, 0) == s.len() || find_delim_from(s, 0) + 3 <= s.len(),
        decreases n - i,
    {
        if v[i] == '[' && v[i + 1] == '*' && v[i + 2] == ']' {
            proof {
                assert(is_delim_at(s, i - from));
            }
            return i;
        }
        proof {
            assert(!is_delim_at(s, i - from));
        }
        i += 1;
    }
    n
}

proof fn lemma_split_once_skip(v: Seq<char>, from: int, k: int)
    requires
        0 <= from <= v.len(),
        k == from + find_delim_from(v.skip(from), 0),
    ensures
        k < v.len() ==> split_once(v.skip(from)) == Some(
            (v.subrange(from, k), v.skip(k + 3)),
        ),
        k >= v.len() ==> split_once(v.skip(from)) is None,
{
    let s = v.skip(from);
    lemma_find_delim_bounds(s, 0);
    if k < v.len() {
        assert(s.take(k - from) =~= v.subrange(from, k));
        assert(s.skip(k - from + 3) =~= v.skip(k + 3));
    }
}

proof fn lemma_find_delim_bounds(s: Seq<char>, i: int)
    requires
        0 <= i,
    ensures
        find_delim_from(s, i) == s.len() || (i <= find_delim_from(s, i) && find_delim_from(s, i)
            + 3 <= s.len() && is_delim_at(s, find_delim_from(s, i))),
    decreases s.len() - i,
{
    if i + 3 <= s.len() && !is_delim_at(s, i) {
        lemma_find_delim_bounds(s, i + 1);
    }
}

impl Notification {
    /// Deserialise one line from the history file.
    ///
    /// The line is split at its first three `[*]` separators; the first part,
    /// trimmed, must be an `i64`, scaled from seconds to milliseconds when
    /// below `100_000_000_000`; the other three parts are unescaped.
    pub fn from_line(line: &str) -> (r: Option<Notification>)
        requires
            timestamp_fits(line@),
        ensures
            r matches Some(n) ==> spec_from_line(line@) == Some(n@),
            r is None ==> spec_from_line(line@) is None,
    {
        let v = chars_of(line);
        let n = v.len();
        proof {
            assert(v@.skip(0) =~= v@);
        }
        let k1 = find_delim(&v, 0);
        proof {
            lemma_split_once_skip(v@, 0, k1 as int);
        }
        if k1 >= n {
            return None;
        }
        let k2 = find_delim(&v, k1 + 3);
        proof {
            lemma_split_once_skip(v@, k1 + 3, k2 as int);
        }
        if k2 >= n {
            return None;
        }
        let k3 = find_delim(&v, k2 + 3);
        proof {
            lemma_split_once_skip(v@, k2 + 3, k3 as int);
        }
        if k3 >= n {
            return None;
        }
        let ghost parts = (
            v@.subrange(0, k1 as int),
            v@.subrange(k1 + 3, k2 as int),
            v@.subrange(k2 + 3, k3 as int),
            v@.skip(k3 + 3),
        );
        proof {
            assert(split4(line@) == Some(parts));
        }
        let (a, b) = trim_bounds(&v, 0, k1);
        let raw = match parse_i64(&v, a, b) {
            Some(x) => x,
            None => {
                return None;
            },
        };
        let timestamp = if raw < 100_000_000_000 {
            raw * 1000
        } else {
            raw
        };
        let app_raw = string_from_range(&v, k1 + 3, k2);
        let summary_raw = string_from_range(&v, k2 + 3, k3);
        let body_raw = string_from_range(&v, k3 + 3, n);
        proof {
            assert(body_raw@ =~= v@.skip(k3 + 3));
        }
        Some(
            Notification {
                timestamp,
                app_name: unescape_value(app_raw.as_str()),
                summary: unescape_value(summary_raw.as_str()),
                body: unescape_value(body_raw.as_str()),
            },
        )
    }

    /// Serialise to a single file line.
    pub fn to_line(&self) -> (r: String)
        ensures
            r@ == spec_to_line(self@),
    {
        let mut s = String::new();
        push_i64(&mut s, self.timestamp);
        push_delimiter(&mut s);
        push_all(&mut s, escape_value(self.app_name.as_str()).as_str());
        push_delimiter(&mut s);
        push_all(&mut s, escape_value(self.summary.as_str()).as_str());
        push_delimiter(&mut s);
        push_all(&mut s, escape_value(self.body.as_str()).as_str());
        proof {
            assert(s@ =~= spec_to_line(self@));
        }
        s
    }

    /// Combined string used for fuzzy-search scoring / filtering:
    /// summary, app name and body separated by single spaces.
    pub fn search_text(&self) -> (r: String)
        ensures
            r@ == self.summary@ + seq![' '] + self.app_name@ + seq![' '] + self.body@,
    {
        let mut s = String::new();
        push_all(&mut s, self.summary.as_str());
        s.push(' ');
        push_all(&mut s, self.app_name.as_str());
        s.push(' ');
        push_all(&mut s, self.body.as_str());
        proof {
            assert(s@ =~= self.summary@ + seq![' '] + self.app_name@ + seq![' '] + self.body@);
        }
        s
    }

    /// Return the body text formatted for display.
    ///
    /// When `escape` is `false`, the literal two-character sequences `\n` and
    /// `\t` in the body are expanded to a newline and a tab; when it is `true`
    /// the body is returned unchanged.
    pub fn display_body(&self, escape: bool) -> (r: String)
        ensures
            escape ==> r@ == self.body@,
            !escape ==> r@ == expand_escapes(self.body@),
    {
        if escape {
            self.body.clone()
        } else {
            let t = replace_pair(self.body.as_str(), '\\', 'n', '\n');
            replace_pair(t.as_str(), '\\', 't', '\t')
        }
    }

    /// Human-readable timestamp, in the longest local-time format that fits
    /// within `max_cols` display columns (`HH:MM:SS` at least), or
    /// `ts:<timestamp>` when the timestamp cannot be shown as a local time.
    /// The digits depend on the machine's time zone; the shape of the text
    /// is as `local_time_text` says.
    pub fn datetime_str_for_width(&self, max_cols: usize) -> (r: String)
        ensures
            local_time_text(r@, self.timestamp as int, max_cols as int),
            four_digit_year_millis(self.timestamp as int) ==> r@.len() == datetime_columns(
                max_cols as int,
            ),
    {
        let fmt = datetime_format_for_width(max_cols);
        let formatted = format_local_millis(self.timestamp, fmt);
        let ghost o = match &formatted {
            Some(s) => Some(s@),
            None => None,
        };
        let r = datetime_text(formatted, self.timestamp);
        proof {
            assert(r@ == datetime_text_spec(o, self.timestamp as int));
            lemma_datetime_columns(max_cols as int);
        }
        r
    }
}

fn push_delimiter(s: &mut String)
    ensures
        final(s)@ == old(s)@ + delimiter(),
{
    s.push('[');
    s.push('*');
    s.push(']');
    proof {
        assert(s@ =~= old(s)@ + delimiter());
    }
}

// ── Display helpers ───────────────────────────────────────────────────────────

/// `s` with every `a b` pair replaced by `c`, scanning from the left
/// (`str::replace` with a two-character pattern of distinct characters).
pub open spec fn spec_replace_pair(s: Seq<char>, a: char, b: char, c: char) -> Seq<char>
    decreases s.len(),
{
    if s.len() == 0 {
        seq![]
    } else if s.len() >= 2 && s[0] == a && s[1] == b {
        seq![c] + spec_replace_pair(s.skip(2), a, b, c)
    } else {
        seq![s[0]] + spec_replace_pair(s.drop_first(), a, b, c)
    }
}

/// The body as shown when escapes are expanded: `\n` then `\t` replaced.
pub open spec fn expand_escapes(s: Seq<char>) -> Seq<char> {
    spec_replace_pair(spec_replace_pair(s, '\\', 'n', '\n'), '\\', 't', '\t')
}

fn replace_pair(s: &str, a: char, b: char, c: char) -> (r: String)
    ensures
        r@ == spec_replace_pair(s@, a, b, c),
{
    let v = chars_of(s);
    let n = v.len();
    let mut out = String::new();
    let mut i: usize = 0;
    proof {
        assert(v@.skip(0) =~= v@);
    }
    while i < n
        invariant
            n == v@.len(),
            v@ == s@,
            i <= n,
            out@ + spec_replace_pair(v@.skip(i as int), a, b, c) == spec_replace_pair(v@, a, b, c),
        decreases n - i,
    {
        let ghost before = out@;
        let ghost rest = v@.skip(i as int);
        if i + 1 < n && v[i] == a && v[i + 1] == b {
            out.push(c);
            proof {
                assert(rest.skip(2) =~= v@.skip(i + 2));
                assert(before + (seq![c] + spec_replace_pair(v@.skip(i + 2), a, b, c)) =~= out@
                    + spec_replace_pair(v@.skip(i + 2), a, b, c));
            }
            i += 2;
        } else {
            out.push(v[i]);
            proof {
                assert(rest.drop_first() =~= v@.skip(i + 1));
                assert(before + (seq![v@[i as int]] + spec_replace_pair(v@.skip(i + 1), a, b, c))
                    =~= out@ + spec_replace_pair(v@.skip(i + 1), a, b, c));
            }
            i += 1;
        }
    }
    proof {
        assert(v@.skip(n as int) =~= Seq::<char>::empty());
        assert(out@ + Seq::<char>::empty() =~= out@);
    }
    out
}

/// The local-time formats, longest first, with the columns each needs.
pub open spec fn datetime_format_spec(max_cols: int) -> Seq<char> {
    if max_cols >= 23 {
        "%Y-%m-%d %H:%M:%S%.3f"@
    } else if max_cols >= 18 {
        "%m-%d %H:%M:%S%.3f"@
    } else if max_cols >= 14 {
        "%m-%d %H:%M:%S"@
    } else if max_cols >= 11 {
        "%d %H:%M:%S"@
    } else {
        "%H:%M:%S"@
    }
}

/// Whether `f` is one of the five local-time formats used here.
pub open spec fn is_datetime_format(f: Seq<char>) -> bool {
    f == "%Y-%m-%d %H:%M:%S%.3f"@ || f == "%m-%d %H:%M:%S%.3f"@ || f == "%m-%d %H:%M:%S"@ || f
        == "%d %H:%M:%S"@ || f == "%H:%M:%S"@
}

/// The longest format that fits in `max_cols` columns: with year and
/// milliseconds from 23 columns, without the year from 18, without the
/// milliseconds from 14, without the month from 11, and `HH:MM:SS` below.
pub fn datetime_format_for_width(max_cols: usize) -> (r: &'static str)
    ensures
        r@ == datetime_format_spec(max_cols as int),
        is_datetime_format(r@),
{
    if max_cols >= 23 {
        "%Y-%m-%d %H:%M:%S%.3f"
    } else if max_cols >= 18 {
        "%m-%d %H:%M:%S%.3f"
    } else if max_cols >= 14 {
        "%m-%d %H:%M:%S"
    } else if max_cols >= 11 {
        "%d %H:%M:%S"
    } else {
        "%H:%M:%S"
    }
}

/// The text shown for a timestamp given what formatting it as local time
/// gave: that text, or `ts:<timestamp>` when it could not be formatted.
pub open spec fn datetime_text_spec(formatted: Option<Seq<char>>, ts: int) -> Seq<char> {
    match formatted {
        Some(s) => s,
        None => seq!['t', 's', ':'] + int_decimal(ts),
    }
}

/// The text shown for a timestamp given the result of formatting it.
pub fn datetime_text(formatted: Option<String>, ts: i64) -> (r: String)
    ensures
        r@ == datetime_text_spec(
            match formatted {
                Some(s) => Some(s@),
                None => None,
            },
            ts as int,
        ),
{
    match formatted {
        Some(s) => s,
        None => {
            let mut s = String::new();
            s.push('t');
            s.push('s');
            s.push(':');
            push_i64(&mut s, ts);
            proof {
                assert(s@ =~= seq!['t', 's', ':'] + int_decimal(ts as int));
            }
            s
        },
    }
}

/// The format with year and milliseconds.
pub open spec fn year_format() -> Seq<char> {
    "%Y-%m-%d %H:%M:%S%.3f"@
}

/// The pattern that a format's text follows: each `0` stands for an ASCII
/// digit, every other character for itself (`%Y` is four digits, `%m`,
/// `%d`, `%H`, `%M`, `%S` two, `%.3f` a point and three).
pub open spec fn datetime_template(fmt: Seq<char>) -> Seq<char> {
    if fmt == year_format() {
        "0000-00-00 00:00:00.000"@
    } else if fmt == "%m-%d %H:%M:%S%.3f"@ {
        "00-00 00:00:00.000"@
    } else if fmt == "%m-%d %H:%M:%S"@ {
        "00-00 00:00:00"@
    } else if fmt == "%d %H:%M:%S"@ {
        "00 00:00:00"@
    } else {
        "00:00:00"@
    }
}

/// Whether `s` follows the pattern `t`: as long, with an ASCII digit where
/// `t` has `0` and the character of `t` elsewhere.
pub open spec fn fits_template(s: Seq<char>, t: Seq<char>) -> bool {
    &&& s.len() == t.len()
    &&& forall|i: int|
        0 <= i < t.len() ==> if t[i] == '0' {
            '0' <= #[trigger] s[i] <= '9'
        } else {
            s[i] == t[i]
        }
}

/// Whether a time `ms` milliseconds from 1970 (UTC) lies far enough from
/// the years 0 and 9999 that its local time, in any time zone (an offset of
/// less than a day), has a four-digit year.
pub open spec fn four_digit_year_millis(ms: int) -> bool {
    -62_000_000_000_000 <= ms <= 253_000_000_000_000
}

/// The columns that the format chosen for `max_cols` columns takes.
pub open spec fn datetime_columns(max_cols: int) -> int {
    if max_cols >= 23 {
        23
    } else if max_cols >= 18 {
        18
    } else if max_cols >= 14 {
        14
    } else if max_cols >= 11 {
        11
    } else {
        8
    }
}

/// The chosen format's pattern is as long as its columns, which are at most
/// `max_cols` unless that is below 8.
pub proof fn lemma_datetime_columns(max_cols: int)
    ensures
        datetime_template(datetime_format_spec(max_cols)).len() == datetime_columns(max_cols),
        datetime_columns(max_cols) <= if max_cols > 8 {
            max_cols
        } else {
            8
        },
{
    reveal_strlit("%Y-%m-%d %H:%M:%S%.3f");
    reveal_strlit("%m-%d %H:%M:%S%.3f");
    reveal_strlit("%m-%d %H:%M:%S");
    reveal_strlit("%d %H:%M:%S");
    reveal_strlit("%H:%M:%S");
    reveal_strlit("0000-00-00 00:00:00.000");
    reveal_strlit("00-00 00:00:00.000");
    reveal_strlit("00-00 00:00:00");
    reveal_strlit("00 00:00:00");
    reveal_strlit("00:00:00");
    assert(year_format().len() == 21);
    assert("%m-%d %H:%M:%S%.3f"@.len() == 18);
    assert("%m-%d %H:%M:%S"@.len() == 14);
    assert("%d %H:%M:%S"@.len() == 11);
    assert("%H:%M:%S"@.len() == 8);
}

/// What showing the time `ts` in `max_cols` columns gives, whatever the time
/// zone: text in the pattern of the chosen format when the year surely has
/// four digits; for the formats without a year, that pattern or
/// `ts:<timestamp>` in any case.
pub open spec fn local_time_text(t: Seq<char>, ts: int, max_cols: int) -> bool {
    let pattern = datetime_template(datetime_format_spec(max_cols));
    &&& four_digit_year_millis(ts) ==> fits_template(t, pattern)
    &&& datetime_format_spec(max_cols) != year_format() ==> (fits_template(t, pattern) || t
        == datetime_text_spec(None, ts))
}

/// Calls `chrono::Local.timestamp_millis_opt(ms)` and, when it gives a
/// single local time, formats it with `fmt` (`DateTime::format` and
/// `to_string`). `fmt` must be one of the five formats, all of which chrono
/// accepts, so that `to_string` does not panic. chrono gives a single time
/// for every `ms` within about 262,000 years of 1970, and writes `%Y` as
/// four digits for the years 0 to 9999, the other fields zero-padded to two
/// digits and `%.3f` as a point and three digits. Which digits come out
/// depends on the machine's time zone and is not stated.
#[verifier::external_body]
fn format_local_millis(ms: i64, fmt: &str) -> (r: Option<String>)
    requires
        is_datetime_format(fmt@),
    ensures
        four_digit_year_millis(ms as int) ==> r is Some,
        r matches Some(s) ==> (fmt@ != year_format() || four_digit_year_millis(ms as int))
            ==> fits_template(s@, datetime_template(fmt@)),
{
    match chrono::Local.timestamp_millis_opt(ms) {
        chrono::LocalResult::Single(dt) => Some(dt.format(fmt).to_string()),
        _ => None,
    }
}

// ── Round trip ────────────────────────────────────────────────────────────────

proof fn lemma_escape_head(s: Seq<char>)
    requires
        s.len() > 0,
    ensures
        spec_escape(s).len() > 0,
        spec_escape(s)[0] == s[0] || spec_escape(s)[0] == '\\',
{
    assert(spec_escape(s) == escape_char(s[0]) + spec_escape(s.drop_first()));
}

/// Escaping never creates a separator: an escaped field without `[*]` in its
/// source has none either.
pub proof fn lemma_escape_no_delim(s: Seq<char>)
    requires
        !has_delim(s),
    ensures
        !has_delim(spec_escape(s)),
    decreases s.len(),
{
    if s.len() > 0 {
        let rest = s.drop_first();
        assert(!has_delim(rest)) by {
            if has_delim(rest) {
                let j = choose|j: int| is_delim_at(rest, j);
                assert(is_delim_at(s, j + 1));
            }
        }
        lemma_escape_no_delim(rest);
        let e = spec_escape(s);
        let er = spec_escape(rest);
        let ec = escape_char(s[0]);
        assert(e == ec + er);
        assert forall|i: int| !is_delim_at(e, i) by {
            if is_delim_at(e, i) {
                if ec.len() == 1 {
                    if i == 0 {
                        assert(s[0] == '[');
                        assert(er[0] == '*');
                        lemma_escape_head(rest);
                        assert(rest[0] == '*');
                        let rest2 = rest.drop_first();
                        assert(er == escape_char(rest[0]) + spec_escape(rest2));
                        assert(spec_escape(rest2)[0] == ']');
                        lemma_escape_head(rest2);
                        assert(rest2[0] == ']');
                        assert(is_delim_at(s, 0));
                    } else {
                        assert(is_delim_at(er, i - 1));
                    }
                } else {
                    if i == 0 {
                        assert(e[0] == '\\');
                    } else if i == 1 {
                        assert(e[1] != '[');
                    } else {
                        assert(is_delim_at(er, i - 2));
                    }
                }
            }
        }
    }
}

/// An escaped field holds no newline and no carriage return.
pub proof fn lemma_escape_single_line(s: Seq<char>)
    ensures
        forall|i: int|
            0 <= i < spec_escape(s).len() ==> #[trigger] spec_escape(s)[i] != '\n'
                && spec_escape(s)[i] != '\r',
    decreases s.len(),
{
    if s.len() > 0 {
        lemma_escape_single_line(s.drop_first());
        let e = spec_escape(s);
        let ec = escape_char(s[0]);
        assert(e == ec + spec_escape(s.drop_first()));
        assert forall|i: int| 0 <= i < e.len() implies #[trigger] e[i] != '\n' && e[i] != '\r' by {
            if i >= ec.len() {
                assert(e[i] == spec_escape(s.drop_first())[i - ec.len()]);
            }
        }
    }
}

proof fn lemma_find_delim_steps(s: Seq<char>, i: int, k: int)
    requires
        0 <= i <= k,
        k + 3 <= s.len(),
        forall|j: int| i <= j < k ==> !is_delim_at(s, j),
    ensures
        find_delim_from(s, i) == find_delim_from(s, k),
    decreases k - i,
{
    if i < k {
        lemma_find_delim_steps(s, i + 1, k);
    }
}

/// In `a [*] c`, with no separator in `a`, the first separator is the one
/// right after `a`.
pub proof fn lemma_split_once_concat(a: Seq<char>, c: Seq<char>)
    requires
        !has_delim(a),
    ensures
        split_once(a + delimiter() + c) == Some((a, c)),
{
    let s = a + delimiter() + c;
    assert forall|j: int| 0 <= j < a.len() implies !is_delim_at(s, j) by {
        if is_delim_at(s, j) {
            if j + 3 <= a.len() {
                assert(is_delim_at(a, j));
            } else if j == a.len() - 1 {
                assert(s[j + 1] == '[');
            } else {
                assert(s[j + 2] == '[');
            }
        }
    }
    lemma_find_delim_steps(s, 0, a.len() as int);
    assert(is_delim_at(s, a.len() as int));
    assert(s.take(a.len() as int) =~= a);
    assert(s.skip(a.len() as int + 3) =~= c);
}

proof fn lemma_decimal_shape(t: int)
    ensures
        int_decimal(t).len() > 0,
        forall|i: int|
            0 <= i < int_decimal(t).len() ==> (#[trigger] int_decimal(t)[i] == '-' || is_digit(
                int_decimal(t)[i],
            )),
        is_digit(int_decimal(t).last()),
{
    if t < 0 {
        lemma_nat_digits((-t) as nat);
        let d = nat_digits((-t) as nat);
        assert forall|i: int| 0 <= i < int_decimal(t).len() implies (#[trigger] int_decimal(t)[i]
            == '-' || is_digit(int_decimal(t)[i])) by {
            if i > 0 {
                assert(int_decimal(t)[i] == d[i - 1]);
            }
        }
        assert(int_decimal(t).last() == d.last());
    } else {
        lemma_nat_digits(t as nat);
    }
}

/// The decimal text of a timestamp holds no separator and is its own trim.
proof fn lemma_decimal_field(t: int)
    ensures
        !has_delim(int_decimal(t)),
        trim(int_decimal(t)) == int_decimal(t),
{
    lemma_decimal_shape(t);
    let d = int_decimal(t);
    if has_delim(d) {
        let j = choose|j: int| is_delim_at(d, j);
        assert(d[j] == '[');
    }
    assert(!is_ws(d[0]));
    assert(trim_start(d) == d);
    assert(!is_ws(d.last()));
}

/// Reading back the line written for a notification gives the same
/// notification, with a timestamp below `100_000_000_000` scaled to
/// milliseconds, when neither the app name nor the summary holds `[*]`.
pub proof fn lemma_from_line_to_line(n: NotifView)
    requires
        -9_223_372_036_854_775 <= n.0 <= i64::MAX,
        !has_delim(n.1),
        !has_delim(n.2),
    ensures
        timestamp_fits(spec_to_line(n)),
        spec_from_line(spec_to_line(n)) == Some(
            (normalize_timestamp(n.0), n.1, n.2, n.3),
        ),
{
    let d = int_decimal(n.0);
    let e1 = spec_escape(n.1);
    let e2 = spec_escape(n.2);
    let e3 = spec_escape(n.3);
    lemma_decimal_field(n.0);
    lemma_escape_no_delim(n.1);
    lemma_escape_no_delim(n.2);
    let r1 = e1 + delimiter() + e2 + delimiter() + e3;
    let r2 = e2 + delimiter() + e3;
    assert(spec_to_line(n) =~= d + delimiter() + r1);
    lemma_split_once_concat(d, r1);
    assert(r1 =~= e1 + delimiter() + r2);
    lemma_split_once_concat(e1, r2);
    lemma_split_once_concat(e2, e3);
    lemma_parse_int_decimal(n.0);
    lemma_unescape_escape(n.1);
    lemma_unescape_escape(n.2);
    lemma_unescape_escape(n.3);
}

// ── The history file ─────────────────────────────────────────────────────────

/// `ls` joined with newlines (`[..].join("\n")`).
pub open spec fn join_lines(ls: Seq<Seq<char>>) -> Seq<char>
    decreases ls.len(),
{
    if ls.len() == 0 {
        seq![]
    } else if ls.len() == 1 {
        ls[0]
    } else {
        ls[0] + seq!['\n'] + join_lines(ls.drop_first())
    }
}

/// The lines written for `ns`, in order.
pub open spec fn history_lines(ns: Seq<NotifView>) -> Seq<Seq<char>> {
    ns.map_values(|n: NotifView| spec_to_line(n))
}

/// The content of the history file written for `ns`: the lines joined with
/// newlines, with a final newline unless the text is empty.
pub open spec fn spec_history_content(ns: Seq<NotifView>) -> Seq<char> {
    let j = join_lines(history_lines(ns));
    if j.len() == 0 {
        j
    } else {
        j.push('\n')
    }
}

/// What reading the lines `ls` of a history file gives: lines that are blank
/// after trimming are skipped, and so are lines that do not read as a
/// notification.
pub open spec fn spec_parse_lines(ls: Seq<Seq<char>>) -> Seq<NotifView>
    decreases ls.len(),
{
    if ls.len() == 0 {
        seq![]
    } else {
        let rest = spec_parse_lines(ls.drop_first());
        if trim(ls[0]).len() == 0 {
            rest
        } else {
            match spec_from_line(ls[0]) {
                Some(n) => seq![n] + rest,
                None => rest,
            }
        }
    }
}

/// What reading a history file with content `s` gives.
pub open spec fn spec_parse_history(s: Seq<char>) -> Seq<NotifView> {
    spec_parse_lines(spec_lines(s))
}

/// Whether every line of `s` can be read without overflow.
pub open spec fn history_fits(s: Seq<char>) -> bool {
    forall|i: int| 0 <= i < spec_lines(s).len() ==> timestamp_fits(#[trigger] spec_lines(s)[i])
}

/// The views of a sequence of notifications.
pub open spec fn notif_views(v: Seq<Notification>) -> Seq<NotifView> {
    v.map_values(|n: Notification| n@)
}

/// Whether every line of `content` can be read without the overflow of
/// scaling a very negative seconds timestamp to milliseconds.
pub fn history_timestamps_fit(content: &str) -> (r: bool)
    ensures
        r == history_fits(content@),
{
    let lines = split_lines(content);
    let mut i: usize = 0;
    while i < lines.len()
        invariant
            i <= lines.len(),
            views(lines@) == spec_lines(content@),
            forall|j: int| 0 <= j < i ==> timestamp_fits(#[trigger] spec_lines(content@)[j]),
        decreases lines.len() - i,
    {
        assert(views(lines@)[i as int] == lines@[i as int]@);
        if !line_timestamp_fits(lines[i].as_str()) {
            return false;
        }
        i += 1;
    }
    true
}

/// Whether reading `line` stays clear of the timestamp overflow.
pub fn line_timestamp_fits(line: &str) -> (r: bool)
    ensures
        r == timestamp_fits(line@),
{
    let v = chars_of(line);
    let n = v.len();
    proof {
        assert(v@.skip(0) =~= v@);
    }
    let k1 = find_delim(&v, 0);
    proof {
        lemma_split_once_skip(v@, 0, k1 as int);
    }
    if k1 >= n {
        return true;
    }
    let k2 = find_delim(&v, k1 + 3);
    proof {
        lemma_split_once_skip(v@, k1 + 3, k2 as int);
    }
    if k2 >= n {
        return true;
    }
    let k3 = find_delim(&v, k2 + 3);
    proof {
        lemma_split_once_skip(v@, k2 + 3, k3 as int);
    }
    if k3 >= n {
        return true;
    }
    let (a, b) = trim_bounds(&v, 0, k1);
    match parse_i64(&v, a, b) {
        Some(x) => x >= -9_223_372_036_854_775,
        None => true,
    }
}

/// Read the notifications stored in a history file's content: one per line,
/// newest first, skipping blank lines and lines that do not parse.
pub fn parse_history(content: &str) -> (r: Vec<Notification>)
    requires
        history_fits(content@),
    ensures
        notif_views(r@) == spec_parse_history(content@),
{
    let lines = split_lines(content);
    let ghost ls = spec_lines(content@);
    let mut out: Vec<Notification> = Vec::new();
    let mut k: usize = 0;
    proof {
        assert(ls.skip(0) =~= ls);
    }
    while k < lines.len()
        invariant
            k <= lines.len(),
            views(lines@) == ls,
            ls == spec_lines(content@),
            history_fits(content@),
            notif_views(out@) + spec_parse_lines(ls.skip(k as int)) == spec_parse_lines(ls),
        decreases lines.len() - k,
    {
        let line = &lines[k];
        proof {
            assert(views(lines@)[k as int] == line@);
            assert(ls.skip(k as int).drop_first() =~= ls.skip(k + 1));
            assert(ls.skip(k as int)[0] == line@);
        }
        let t = trim_string(line.as_str());
        let ghost before = notif_views(out@);
        if !t.as_str().is_empty() {
            proof {
                assert(t@.len() > 0);
            }
            match Notification::from_line(line.as_str()) {
                Some(n) => {
                    out.push(n);
                    proof {
                        assert(notif_views(out@) =~= before.push(n@));
                        assert(before + (seq![n@] + spec_parse_lines(ls.skip(k + 1))) =~= notif_views(
                            out@,
                        ) + spec_parse_lines(ls.skip(k + 1)));
                    }
                },
                None => {},
            }
        } else {
            proof {
                assert(t@.len() == 0);
            }
        }
        k += 1;
    }
    proof {
        assert(ls.skip(lines.len() as int) =~= Seq::<Seq<char>>::empty());
        assert(notif_views(out@) + Seq::<NotifView>::empty() =~= notif_views(out@));
    }
    out
}

/// The content written to the history file for `ns`: one line per
/// notification, each followed by a newline.
pub fn history_content(ns: &Vec<Notification>) -> (r: String)
    ensures
        r@ == spec_history_content(notif_views(ns@)),
{
    let mut s = String::new();
    let mut i: usize = 0;
    while i < ns.len()
        invariant
            i <= ns.len(),
            s@ == join_lines(history_lines(notif_views(ns@)).take(i as int)),
        decreases ns.len() - i,
    {
        let line = ns[i].to_line();
        let ghost before = s@;
        let ghost ls = history_lines(notif_views(ns@));
        if i > 0 {
            s.push('\n');
        }
        push_all(&mut s, line.as_str());
        proof {
            lemma_join_push(ls.take(i as int), line@);
            assert(ls.take(i + 1) =~= ls.take(i as int).push(line@));
        }
        i += 1;
    }
    proof {
        assert(history_lines(notif_views(ns@)).take(ns.len() as int) =~= history_lines(
            notif_views(ns@),
        ));
    }
    if !s.as_str().is_empty() {
        s.push('\n');
    }
    proof {
        assert(s@.len() == 0 ==> s@ == join_lines(history_lines(notif_views(ns@))));
    }
    s
}

proof fn lemma_join_push(ls: Seq<Seq<char>>, l: Seq<char>)
    ensures
        join_lines(ls.push(l)) == if ls.len() == 0 {
            l
        } else {
            join_lines(ls) + seq!['\n'] + l
        },
    decreases ls.len(),
{
    if ls.len() == 0 {
        assert(ls.push(l) =~= seq![l]);
    } else if ls.len() == 1 {
        assert(ls.push(l).drop_first() =~= seq![l]);
        assert(join_lines(seq![l]) == l);
        assert(ls.push(l)[0] == ls[0]);
    } else if ls.len() > 1 {
        assert(ls.push(l).drop_first() =~= ls.drop_first().push(l));
        lemma_join_push(ls.drop_first(), l);
        assert(ls.push(l)[0] == ls[0]);
        assert(join_lines(ls.push(l)) =~= join_lines(ls) + seq!['\n'] + l);
    }
}

/// A notification that the history file stores exactly: its timestamp is
/// already in milliseconds (at least `100_000_000_000`) and neither its app
/// name nor its summary holds the separator `[*]`.
pub open spec fn storable(n: NotifView) -> bool {
    seconds_limit() <= n.0 <= i64::MAX && !has_delim(n.1) && !has_delim(n.2)
}

proof fn lemma_no_newline_concat(a: Seq<char>, b: Seq<char>)
    requires
        forall|i: int| 0 <= i < a.len() ==> #[trigger] a[i] != '\n' && a[i] != '\r',
        forall|i: int| 0 <= i < b.len() ==> #[trigger] b[i] != '\n' && b[i] != '\r',
    ensures
        forall|i: int|
            0 <= i < (a + b).len() ==> #[trigger] (a + b)[i] != '\n' && (a + b)[i] != '\r',
{
    assert forall|i: int| 0 <= i < (a + b).len() implies #[trigger] (a + b)[i] != '\n' && (a
        + b)[i] != '\r' by {
        if i >= a.len() {
            assert((a + b)[i] == b[i - a.len()]);
        }
    }
}

/// A written line is a single line: no newline or carriage return, not
/// empty, and not starting with whitespace.
proof fn lemma_to_line_shape(n: NotifView)
    ensures
        spec_to_line(n).len() > 0,
        !is_ws(spec_to_line(n)[0]),
        forall|i: int|
            0 <= i < spec_to_line(n).len() ==> #[trigger] spec_to_line(n)[i] != '\n'
                && spec_to_line(n)[i] != '\r',
{
    let d = int_decimal(n.0);
    lemma_decimal_shape(n.0);
    assert forall|i: int| 0 <= i < d.len() implies #[trigger] d[i] != '\n' && d[i] != '\r' by {
        assert(d[i] == '-' || is_digit(d[i]));
    }
    lemma_escape_single_line(n.1);
    lemma_escape_single_line(n.2);
    lemma_escape_single_line(n.3);
    let dl = delimiter();
    assert forall|i: int| 0 <= i < dl.len() implies #[trigger] dl[i] != '\n' && dl[i] != '\r' by {
    }
    lemma_no_newline_concat(d, dl);
    lemma_no_newline_concat(d + dl, spec_escape(n.1));
    lemma_no_newline_concat(d + dl + spec_escape(n.1), dl);
    lemma_no_newline_concat(d + dl + spec_escape(n.1) + dl, spec_escape(n.2));
    lemma_no_newline_concat(d + dl + spec_escape(n.1) + dl + spec_escape(n.2), dl);
    lemma_no_newline_concat(d + dl + spec_escape(n.1) + dl + spec_escape(n.2) + dl, spec_escape(n.3));
    assert(spec_to_line(n)[0] == d[0]);
    assert(d[0] == '-' || is_digit(d[0]));
}

proof fn lemma_trim_nonblank(s: Seq<char>)
    requires
        s.len() > 0,
        !is_ws(s[0]),
    ensures
        trim(s).len() > 0,
{
    assert(trim_start(s) == s);
    lemma_trim_end_keeps_head(s);
}

proof fn lemma_trim_end_keeps_head(s: Seq<char>)
    requires
        s.len() > 0,
        !is_ws(s[0]),
    ensures
        trim_end(s).len() > 0,
    decreases s.len(),
{
    if is_ws(s.last()) {
        assert(s.len() > 1);
        assert(s.drop_last()[0] == s[0]);
        lemma_trim_end_keeps_head(s.drop_last());
    }
}

proof fn lemma_lines_cons(l: Seq<char>, r: Seq<char>)
    requires
        l.len() > 0,
        forall|i: int| 0 <= i < l.len() ==> #[trigger] l[i] != '\n' && l[i] != '\r',
    ensures
        spec_lines(l + seq!['\n'] + r) == seq![l] + spec_lines(r),
{
    let s = l + seq!['\n'] + r;
    assert forall|j: int| 0 <= j < l.len() implies s[j] != '\n' by {
        assert(s[j] == l[j]);
    }
    lemma_first_index_of(s, '\n', l.len() as int);
    assert(s.take(l.len() as int) =~= l);
    assert(s.skip(l.len() as int + 1) =~= r);
    assert(strip_cr(l) == l);
}

proof fn lemma_content_cons(ns: Seq<NotifView>)
    requires
        ns.len() > 0,
    ensures
        spec_history_content(ns) == spec_to_line(ns[0]) + seq!['\n'] + spec_history_content(
            ns.drop_first(),
        ),
{
    let ls = history_lines(ns);
    let rest = ns.drop_first();
    lemma_to_line_shape(ns[0]);
    assert(history_lines(rest) =~= ls.drop_first());
    if rest.len() == 0 {
        assert(join_lines(ls) == ls[0]);
        assert(spec_history_content(rest) =~= Seq::<char>::empty());
    } else {
        lemma_to_line_shape(rest[0]);
        assert(history_lines(rest)[0] == spec_to_line(rest[0]));
        lemma_join_nonempty(history_lines(rest));
        assert(spec_history_content(ns) =~= spec_to_line(ns[0]) + seq!['\n']
            + spec_history_content(rest));
    }
}

proof fn lemma_join_nonempty(ls: Seq<Seq<char>>)
    requires
        ls.len() > 0,
        ls[0].len() > 0,
    ensures
        join_lines(ls).len() > 0,
{
}

/// Reading back the history file written for `ns` gives `ns` again, line
/// for line and in order, when every notification is storable; and reading
/// it never overflows.
pub proof fn lemma_history_round_trip(ns: Seq<NotifView>)
    requires
        forall|i: int| 0 <= i < ns.len() ==> storable(#[trigger] ns[i]),
    ensures
        history_fits(spec_history_content(ns)),
        spec_parse_history(spec_history_content(ns)) == ns,
    decreases ns.len(),
{
    if ns.len() == 0 {
        assert(spec_history_content(ns) =~= Seq::<char>::empty());
        assert(spec_lines(Seq::<char>::empty()) =~= Seq::<Seq<char>>::empty());
    } else {
        let rest = ns.drop_first();
        assert forall|i: int| 0 <= i < rest.len() implies storable(#[trigger] rest[i]) by {
            assert(rest[i] == ns[i + 1]);
        }
        lemma_history_round_trip(rest);
        let n = ns[0];
        assert(storable(n));
        let l = spec_to_line(n);
        lemma_content_cons(ns);
        lemma_to_line_shape(n);
        lemma_lines_cons(l, spec_history_content(rest));
        lemma_from_line_to_line(n);
        assert(normalize_timestamp(n.0) == n.0);
        lemma_trim_nonblank(l);
        let ls = spec_lines(spec_history_content(ns));
        assert(ls.drop_first() == spec_lines(spec_history_content(rest)));
        assert(ls[0] == l);
        assert(seq![n] + rest =~= ns);
        assert forall|i: int| 0 <= i < ls.len() implies timestamp_fits(#[trigger] ls[i]) by {
            if i > 0 {
                assert(ls[i] == spec_lines(spec_history_content(rest))[i - 1]);
            }
        }
    }
}

} // verus!
