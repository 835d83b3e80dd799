//! The daemon's reading of `dbus-monitor` output: a line-by-line state
//! machine that collects the arguments of each `Notify` call, and the
//! update of the history file when one is complete.
use vstd::prelude::*;

use crate::escape::{escape_value, spec_escape};
use crate::notification::{NotifView, Notification};
use crate::text::{
    byte_prefix, byte_prefix_ok, chars_of, first_index_of, lemma_first_index_of, occurs_at,
    occurs_at_exec, parse_i64, push_all, range_views, spec_lines, spec_parse_i64, spec_words,
    split_lines, split_words, starts_with_str, string_from_range, trim, trim_string, utf8_len,
    utf8_len_exec, views,
};

verus! {

// ── Small predicates ──────────────────────────────────────────────────────────

/// Whether `p` occurs anywhere in `s`.
pub open spec fn contains_seq(s: Seq<char>, p: Seq<char>) -> bool {
    exists|i: int| occurs_at(s, p, i)
}

/// Whether `p` occurs in `s`.
pub fn contains_str(s: &str, p: &str) -> (r: bool)
    ensures
        r == contains_seq(s@, p@),
{
    let v = chars_of(s);
    let pv = chars_of(p);
    let mut i: usize = 0;
    while i < v.len()
        invariant
            i <= v.len(),
            v@ == s@,
            pv@ == p@,
            forall|j: int| 0 <= j < i ==> !occurs_at(s@, p@, j),
        decreases v.len() - i,
    {
        if occurs_at_exec(&v, &pv, i) {
            return true;
        }
        i += 1;
    }
    occurs_at_exec(&v, &pv, i)
}

/// The number of backslashes at the end of `s`.
pub open spec fn trailing_backslashes(s: Seq<char>) -> nat
    decreases s.len(),
{
    if s.len() > 0 && s.last() == '\\' {
        1 + trailing_backslashes(s.drop_last())
    } else {
        0
    }
}

/// Whether `s` ends with a double quote that is not escaped: the backslashes
/// right before it, if any, come in pairs.
pub open spec fn ends_with_unescaped_quote_spec(s: Seq<char>) -> bool {
    s.len() > 0 && s.last() == '"' && trailing_backslashes(s.drop_last()) % 2 == 0
}

/// Whether `s` ends with an unescaped double quote.
pub fn ends_with_unescaped_quote(s: &str) -> (r: bool)
    ensures
        r == ends_with_unescaped_quote_spec(s@),
{
    let v = chars_of(s);
    let n = v.len();
    if n == 0 || v[n - 1] != '"' {
        return false;
    }
    let ghost body = v@.drop_last();
    let mut count: usize = 0;
    let mut k: usize = n - 1;
    proof {
        assert(body.take(k as int) =~= body);
    }
    while k > 0 && v[k - 1] == '\\'
        invariant
            k <= n - 1,
            n == v@.len(),
            body == v@.drop_last(),
            count == (n - 1) - k,
            trailing_backslashes(body) == count + trailing_backslashes(body.take(k as int)),
        decreases k,
    {
        proof {
            assert(body.take(k as int).drop_last() =~= body.take(k - 1));
        }
        k -= 1;
        count += 1;
    }
    proof {
        assert(trailing_backslashes(body.take(k as int)) == 0);
    }
    count % 2 == 0
}

/// Whether a trimmed argument line holds a number or a boolean.
pub open spec fn is_primitive_spec(t: Seq<char>) -> bool {
    occurs_at(t, "uint32 "@, 0) || occurs_at(t, "int32 "@, 0) || occurs_at(t, "boolean "@, 0)
        || occurs_at(t, "byte "@, 0) || occurs_at(t, "int64 "@, 0) || occurs_at(t, "uint64 "@, 0)
}

/// Whether a trimmed argument line holds a number or boolean argument.
pub fn is_primitive_field(trimmed: &str) -> (r: bool)
    ensures
        r == is_primitive_spec(trimmed@),
{
    starts_with_str(trimmed, "uint32 ") || starts_with_str(trimmed, "int32 ") || starts_with_str(
        trimmed,
        "boolean ",
    ) || starts_with_str(trimmed, "byte ") || starts_with_str(trimmed, "int64 ")
        || starts_with_str(trimmed, "uint64 ")
}

// ── Timestamps ────────────────────────────────────────────────────────────────

/// `t` padded on the right with `0` to three characters (`{:0<3}`).
pub open spec fn pad_zeros3(t: Seq<char>) -> Seq<char> {
    if t.len() >= 3 {
        t
    } else {
        t + Seq::new((3 - t.len()) as nat, |i: int| '0')
    }
}

/// Whole milliseconds from a fractional-seconds string: its first three
/// bytes, padded with `0` to three characters, read as an `i64`, or 0.
pub open spec fn frac_ms(frac: Seq<char>) -> int {
    match spec_parse_i64(pad_zeros3(byte_prefix(frac, 3))) {
        Some(v) => v,
        None => 0,
    }
}

/// Convert the fractional-seconds string (e.g. "123456" from dbus-monitor's
/// microsecond-precision `time=` field) to whole milliseconds.
pub fn frac_to_ms(frac: &str) -> (r: i64)
    requires
        byte_prefix_ok(frac@, 3),
    ensures
        r == frac_ms(frac@),
{
    let v = chars_of(frac);
    let mut t = String::new();
    let mut i: usize = 0;
    let mut left: usize = 3;
    proof {
        assert(v@.skip(0) =~= v@);
    }
    while i < v.len() && left > 0 && utf8_len_exec(v[i]) <= left
        invariant
            i <= v.len(),
            left <= 3,
            t@.len() + left <= 3,
            v@ == frac@,
            t@ + byte_prefix(v@.skip(i as int), left as nat) == byte_prefix(frac@, 3),
        decreases v.len() - i,
    {
        let ghost rest = v@.skip(i as int);
        proof {
            assert(rest.drop_first() =~= v@.skip(i + 1));
            assert(t@ + byte_prefix(rest, left as nat) =~= t@.push(v@[i as int])
                + byte_prefix(v@.skip(i + 1), (left - utf8_len(v@[i as int])) as nat));
        }
        left -= utf8_len_exec(v[i]);
        t.push(v[i]);
        i += 1;
    }
    proof {
        let rest = v@.skip(i as int);
        assert(byte_prefix(rest, left as nat) =~= Seq::<char>::empty());
        assert(t@ + Seq::<char>::empty() =~= t@);
    }
    let ghost tv = t@;
    let mut padded = t;
    let tchars = chars_of(padded.as_str());
    let mut cnt = tchars.len();
    while cnt < 3
        invariant
            tv.len() <= cnt,
            cnt <= 3 || cnt == tv.len(),
            padded@ == tv + Seq::new((cnt - tv.len()) as nat, |j: int| '0'),
        decreases 3 - cnt,
    {
        padded.push('0');
        cnt += 1;
        proof {
            assert(padded@ =~= tv + Seq::new((cnt - tv.len()) as nat, |j: int| '0'));
        }
    }
    proof {
        if tv.len() >= 3 {
            assert(padded@ =~= tv);
        }
        assert(padded@ =~= pad_zeros3(tv));
    }
    let pv = chars_of(padded.as_str());
    proof {
        assert(pv@.subrange(0, pv@.len() as int) =~= pv@);
    }
    match parse_i64(&pv, 0, pv.len()) {
        Some(x) => x,
        None => 0,
    }
}

/// The seconds and the fraction of a `time=<secs>[.<frac>]` word, when the
/// seconds read as an `i64` (the fraction is `0` when there is no dot).
pub open spec fn time_parts(w: Seq<char>) -> Option<(int, Seq<char>)> {
    if occurs_at(w, "time="@, 0) {
        let rest = w.skip(5);
        let k = first_index_of(rest, '.');
        let frac = if k < rest.len() {
            rest.skip(k as int + 1)
        } else {
            seq!['0']
        };
        match spec_parse_i64(rest.take(k as int)) {
            Some(secs) => Some((secs, frac)),
            None => None,
        }
    } else {
        None
    }
}

/// The parts of the first word that is a readable `time=` field.
pub open spec fn first_time_parts(ws: Seq<Seq<char>>) -> Option<(int, Seq<char>)>
    decreases ws.len(),
{
    if ws.len() == 0 {
        None
    } else {
        match time_parts(ws[0]) {
            Some(p) => Some(p),
            None => first_time_parts(ws.drop_first()),
        }
    }
}

/// The time of a `dbus-monitor` header line in milliseconds, when it has a
/// readable `time=` field.
pub open spec fn header_time(line: Seq<char>) -> Option<int> {
    match first_time_parts(spec_words(line)) {
        Some((secs, frac)) => Some(secs * 1000 + frac_ms(frac)),
        None => None,
    }
}

/// Whether reading the time of a header line neither slices its fraction
/// inside a character nor overflows an `i64`, the inputs on which reading
/// the time panics.
pub open spec fn header_time_ok(line: Seq<char>) -> bool {
    match first_time_parts(spec_words(line)) {
        Some((secs, frac)) => byte_prefix_ok(frac, 3) && i64::MIN <= secs * 1000 <= i64::MAX
            && i64::MIN <= secs * 1000 + frac_ms(frac) <= i64::MAX,
        None => true,
    }
}

/// `std::time::SystemTime`, the clock's reading.
#[verifier::external_type_specification]
#[verifier::external_body]
pub struct ExSystemTime(std::time::SystemTime);

/// `std::time::SystemTimeError`, a reading before the Unix epoch.
#[verifier::external_type_specification]
#[verifier::external_body]
pub struct ExSystemTimeError(std::time::SystemTimeError);

/// `SystemTime::now()`: the clock's current reading. It depends on the
/// clock, so nothing is promised of it.
#[verifier::external_body]
fn clock_now() -> (r: std::time::SystemTime) {
    std::time::SystemTime::now()
}

/// `t.duration_since(UNIX_EPOCH)`: how long after the Unix epoch `t` lies,
/// or an error when it lies before. What a clock reading holds is not
/// visible here, so nothing is promised of the result.
#[verifier::external_body]
fn since_epoch(t: std::time::SystemTime) -> (r: Result<
    std::time::Duration,
    std::time::SystemTimeError,
>) {
    t.duration_since(std::time::UNIX_EPOCH)
}

/// `Duration::as_millis`: the whole milliseconds of `d`. A duration's
/// contents are not visible here, so nothing is promised of the result.
#[verifier::external_body]
fn whole_millis(d: std::time::Duration) -> (r: u128) {
    d.as_millis()
}

/// The current time in milliseconds since the Unix epoch, or 0 when the
/// clock reads before the epoch; the milliseconds are cut to 64 bits as
/// `as i64` cuts them.
fn now_millis() -> (r: i64) {
    match since_epoch(clock_now()) {
        Ok(d) => {
            let ms = whole_millis(d);
            #[verifier::truncate]
            (ms as i64)
        },
        Err(_) => 0,
    }
}

/// The seconds and fraction of the first readable `time=` word of `line`.
fn time_field(line: &str) -> (r: Option<(i64, String)>)
    ensures
        match first_time_parts(spec_words(line@)) {
            Some((secs, frac)) => r matches Some((s, f)) && s == secs && f@ == frac,
            None => r is None,
        },
{
    let v = chars_of(line);
    let ws = split_words(&v);
    let tv = chars_of("time=");
    let ghost words = spec_words(v@);
    let mut idx: usize = 0;
    proof {
        assert(words.skip(0) =~= words);
    }
    while idx < ws.len()
        invariant
            idx <= ws.len(),
            v@ == line@,
            tv@ == "time="@,
            words == spec_words(v@),
            range_views(v@, ws@) == words,
            crate::text::ranges_within(ws@, v@.len()),
            first_time_parts(words) == first_time_parts(words.skip(idx as int)),
        decreases ws.len() - idx,
    {
        let (a, b) = ws[idx];
        let ghost w = v@.subrange(a as int, b as int);
        proof {
            assert(range_views(v@, ws@)[idx as int] == w);
            assert(words.skip(idx as int)[0] == w);
            assert(words.skip(idx as int).drop_first() =~= words.skip(idx + 1));
            reveal_strlit("time=");
        }
        let is_time = b - a >= 5 && occurs_at_exec(&v, &tv, a);
        proof {
            if b - a >= 5 {
                assert(occurs_at(w, "time="@, 0) == occurs_at(v@, tv@, a as int)) by {
                    if occurs_at(v@, tv@, a as int) {
                        assert(w.subrange(0, 5) =~= v@.subrange(a as int, a + 5));
                    }
                    if occurs_at(w, "time="@, 0) {
                        assert(w.subrange(0, 5) =~= v@.subrange(a as int, a + 5));
                    }
                }
            } else {
                assert(!occurs_at(w, "time="@, 0));
            }
        }
        if is_time {
            let s0 = a + 5;
            let mut k = s0;
            while k < b && v[k] != '.'
                invariant
                    s0 <= k <= b <= v@.len(),
                    forall|j: int| s0 <= j < k ==> v@[j] != '.',
                decreases b - k,
            {
                k += 1;
            }
            let ghost rest = w.skip(5);
            proof {
                assert(rest =~= v@.subrange(s0 as int, b as int));
                lemma_first_index_of(rest, '.', k - s0);
                assert(rest.take(k - s0) =~= v@.subrange(s0 as int, k as int));
            }
            match parse_i64(&v, s0, k) {
                Some(secs) => {
                    let frac = if k < b {
                        string_from_range(&v, k + 1, b)
                    } else {
                        let mut z = String::new();
                        z.push('0');
                        z
                    };
                    proof {
                        if k < b {
                            assert(rest.skip(k - s0 + 1) =~= frac@);
                        } else {
                            assert(frac@ =~= seq!['0']);
                        }
                    }
                    return Some((secs, frac));
                },
                None => {},
            }
        }
        idx += 1;
    }
    None
}

/// The time of a header line: its `time=` field in milliseconds, or the
/// current time when it has none.
pub fn extract_timestamp(line: &str) -> (r: i64)
    requires
        header_time_ok(line@),
    ensures
        header_time(line@) matches Some(t) ==> r == t,
{
    match time_field(line) {
        Some((secs, frac)) => {
            let f = frac_to_ms(frac.as_str());
            secs * 1000 + f
        },
        None => now_millis(),
    }
}

/// Whether the first `n` bytes of `s` end on a character boundary.
pub(crate) fn byte_prefix_ok_exec(s: &str, n: usize) -> (r: bool)
    ensures
        r == byte_prefix_ok(s@, n as nat),
{
    let v = chars_of(s);
    let mut i: usize = 0;
    let mut left = n;
    proof {
        assert(v@.skip(0) =~= v@);
    }
    while i < v.len() && left > 0
        invariant
            i <= v.len(),
            v@ == s@,
            byte_prefix_ok(s@, n as nat) == byte_prefix_ok(v@.skip(i as int), left as nat),
        decreases v.len() - i,
    {
        let l = utf8_len_exec(v[i]);
        proof {
            assert(v@.skip(i as int).drop_first() =~= v@.skip(i + 1));
        }
        if l > left {
            return false;
        }
        left -= l;
        i += 1;
    }
    true
}

/// Whether reading the time of `line` is safe (see `header_time_ok`).
pub fn header_time_fits(line: &str) -> (r: bool)
    ensures
        r == header_time_ok(line@),
{
    match time_field(line) {
        Some((secs, frac)) => {
            if !byte_prefix_ok_exec(frac.as_str(), 3) {
                return false;
            }
            if secs < -9_223_372_036_854_775 || secs > 9_223_372_036_854_775 {
                return false;
            }
            let base = secs * 1000;
            let f = frac_to_ms(frac.as_str());
            if f < 0 {
                base >= i64::MIN - f
            } else {
                base <= i64::MAX - f
            }
        },
        None => true,
    }
}

// ── The parser state ──────────────────────────────────────────────────────────

/// The `Notify` call being collected.
pub struct NotifyCollecting {
    pub timestamp: i64,
    /// index of the next Notify parameter we expect (0-4)
    pub field_idx: usize,
    pub app_name: String,
    pub summary: String,
    pub body: String,
    /// buffer for a string value that spans multiple output lines
    pub string_buf: Option<String>,
}

/// Between calls, or inside a `Notify` call.
pub enum ParseState {
    Idle,
    Collecting(NotifyCollecting),
}

/// The collected arguments as plain values.
pub struct CollectingView {
    pub timestamp: int,
    pub field_idx: int,
    pub app_name: Seq<char>,
    pub summary: Seq<char>,
    pub body: Seq<char>,
    pub string_buf: Option<Seq<char>>,
}

/// The parser state as plain values.
pub enum ParseView {
    Idle,
    Collecting(CollectingView),
}

impl View for NotifyCollecting {
    type V = CollectingView;

    open spec fn view(&self) -> CollectingView {
        CollectingView {
            timestamp: self.timestamp as int,
            field_idx: self.field_idx as int,
            app_name: self.app_name@,
            summary: self.summary@,
            body: self.body@,
            string_buf: match self.string_buf {
                Some(b) => Some(b@),
                None => None,
            },
        }
    }
}

impl View for ParseState {
    type V = ParseView;

    open spec fn view(&self) -> ParseView {
        match self {
            ParseState::Idle => ParseView::Idle,
            ParseState::Collecting(c) => ParseView::Collecting(c@),
        }
    }
}

/// The states the parser can be in: at most five arguments counted, and a
/// string being buffered only while fewer than five have been read.
pub open spec fn state_wf(st: ParseView) -> bool {
    match st {
        ParseView::Idle => true,
        ParseView::Collecting(c) => 0 <= c.field_idx <= 5 && (c.string_buf is Some ==> c.field_idx
            < 5),
    }
}

impl ParseState {
    /// Whether the state is one the parser can reach.
    pub open spec fn wf(&self) -> bool {
        state_wf(self@)
    }
}

/// The state right after a `Notify` header with time `ts`.
pub open spec fn fresh_collecting(ts: int) -> CollectingView {
    CollectingView {
        timestamp: ts,
        field_idx: 0,
        app_name: seq![],
        summary: seq![],
        body: seq![],
        string_buf: None,
    }
}

/// Store a string argument: argument 0 is the app name, 3 the summary and
/// 4 the body; the others (the icon) are dropped.
pub open spec fn assign_field_spec(c: CollectingView, value: Seq<char>) -> CollectingView {
    if c.field_idx == 0 {
        CollectingView { app_name: value, ..c }
    } else if c.field_idx == 3 {
        CollectingView { summary: value, ..c }
    } else if c.field_idx == 4 {
        CollectingView { body: value, ..c }
    } else {
        c
    }
}

/// The notification made of the collected arguments.
pub open spec fn finish_spec(c: CollectingView) -> NotifView {
    (c.timestamp, c.app_name, c.summary, c.body)
}

/// One complete string argument read: stored, counted, and when it was the
/// fifth argument, the notification is complete.
pub open spec fn store_string(c: CollectingView, value: Seq<char>) -> (ParseView, Option<NotifView>) {
    let c2 = CollectingView {
        field_idx: c.field_idx + 1,
        string_buf: None,
        ..assign_field_spec(c, value)
    };
    if c2.field_idx >= 5 {
        (ParseView::Collecting(c2), Some(finish_spec(c2)))
    } else {
        (ParseView::Collecting(c2), None)
    }
}

/// One step of the parser on an output line; `now` is the time used for a
/// `Notify` header that has no readable `time=` field.
///
/// - While a string argument spans lines, each line is added to it after a
///   newline; a line ending with an unescaped quote ends it.
/// - A line not indented by three spaces is a header: a `member=Notify`
///   header starts a new call, any other ends collecting.
/// - Inside a call, with fewer than five arguments read, `string "..."`
///   lines give string arguments (or start a multi-line one), and number
///   and boolean lines count as arguments; other lines are ignored.
pub open spec fn spec_process_line(line: Seq<char>, st: ParseView, now: int) -> (
    ParseView,
    Option<NotifView>,
) {
    match st {
        ParseView::Collecting(c) if c.string_buf is Some => {
            let buf = c.string_buf->Some_0;
            if ends_with_unescaped_quote_spec(line) {
                store_string(c, spec_escape(buf + seq!['\n'] + line.drop_last()))
            } else {
                (
                    ParseView::Collecting(
                        CollectingView { string_buf: Some(buf + seq!['\n'] + line), ..c },
                    ),
                    None,
                )
            }
        },
        _ => {
            if !occurs_at(line, "   "@, 0) {
                if contains_seq(line, "member=Notify"@) {
                    let ts = match header_time(line) {
                        Some(t) => t,
                        None => now,
                    };
                    (ParseView::Collecting(fresh_collecting(ts)), None)
                } else {
                    (ParseView::Idle, None)
                }
            } else {
                match st {
                    ParseView::Idle => (ParseView::Idle, None),
                    ParseView::Collecting(c) => {
                        if c.field_idx >= 5 {
                            (st, None)
                        } else {
                            let t = trim(line);
                            if occurs_at(t, "string \""@, 0) {
                                let aq = t.skip(8);
                                if ends_with_unescaped_quote_spec(aq) {
                                    store_string(c, spec_escape(aq.drop_last()))
                                } else {
                                    (
                                        ParseView::Collecting(
                                            CollectingView { string_buf: Some(aq), ..c },
                                        ),
                                        None,
                                    )
                                }
                            } else if is_primitive_spec(t) {
                                (
                                    ParseView::Collecting(
                                        CollectingView { field_idx: c.field_idx + 1, ..c },
                                    ),
                                    None,
                                )
                            } else {
                                (st, None)
                            }
                        }
                    },
                }
            }
        },
    }
}

/// Whether `process_line` reads the time of `line` in state `st`: the line
/// is a `Notify` header and no string argument is being buffered.
pub open spec fn reads_header_time(line: Seq<char>, st: ParseView) -> bool {
    !(st matches ParseView::Collecting(c) && c.string_buf is Some) && !occurs_at(line, "   "@, 0)
        && contains_seq(line, "member=Notify"@)
}

/// The view of an optional notification.
pub open spec fn opt_view(r: Option<Notification>) -> Option<NotifView> {
    match r {
        Some(n) => Some(n@),
        None => None,
    }
}

/// Store an argument's value in the field that argument `field_idx` of a
/// `Notify` call fills: the app name (0), the summary (3) or the body (4);
/// the others are not kept.
pub fn assign_field(
    field_idx: usize,
    value: &str,
    app_name: &mut String,
    summary: &mut String,
    body: &mut String,
)
    ensures
        field_idx == 0 ==> final(app_name)@ == value@,
        field_idx != 0 ==> final(app_name)@ == old(app_name)@,
        field_idx == 3 ==> final(summary)@ == value@,
        field_idx != 3 ==> final(summary)@ == old(summary)@,
        field_idx == 4 ==> final(body)@ == value@,
        field_idx != 4 ==> final(body)@ == old(body)@,
{
    if field_idx == 0 {
        *app_name = copy_str(value);
    } else if field_idx == 3 {
        *summary = copy_str(value);
    } else if field_idx == 4 {
        *body = copy_str(value);
    }
}

fn copy_str(s: &str) -> (r: String)
    ensures
        r@ == s@,
{
    let mut r = String::new();
    push_all(&mut r, s);
    r
}

/// The notification that the collected arguments make.
pub fn finish(s: &NotifyCollecting) -> (r: Notification)
    ensures
        r@ == finish_spec(s@),
{
    Notification {
        timestamp: s.timestamp,
        app_name: s.app_name.clone(),
        summary: s.summary.clone(),
        body: s.body.clone(),
    }
}

/// Store the complete string argument `value` in `s`.
fn store_value(s: NotifyCollecting, value: &str) -> (r: (ParseState, Option<Notification>))
    requires
        s.field_idx < 5,
        s.string_buf is None,
    ensures
        (r.0@, opt_view(r.1)) == store_string(s@, value@),
        state_wf(r.0@),
{
    let mut s = s;
    assign_field(s.field_idx, value, &mut s.app_name, &mut s.summary, &mut s.body);
    s.field_idx = s.field_idx + 1;
    if s.field_idx >= 5 {
        let n = finish(&s);
        (ParseState::Collecting(s), Some(n))
    } else {
        (ParseState::Collecting(s), None)
    }
}

/// One step of the parser, by value.
fn step(line: &str, st: ParseState) -> (r: (ParseState, Option<Notification>))
    requires
        state_wf(st@),
        reads_header_time(line@, st@) ==> header_time_ok(line@),
    ensures
        state_wf(r.0@),
        exists|now: int| spec_process_line(line@, st@, now) == (r.0@, opt_view(r.1)),
        header_time(line@) is Some ==> spec_process_line(line@, st@, 0) == (r.0@, opt_view(r.1)),
{
    let ghost old_view = st@;
    match st {
        ParseState::Collecting(mut s) if s.string_buf.is_some() => {
            let mut buf = match s.string_buf {
                Some(b) => b,
                None => String::new(),
            };
            let ghost old_buf = buf@;
            s.string_buf = None;
            let ghost c0 = match old_view {
                ParseView::Collecting(c) => c,
                ParseView::Idle => s@,
            };
            proof {
                assert(c0.string_buf == Some(old_buf));
                assert(s@ == CollectingView { string_buf: None, ..c0 });
            }
            let lv = chars_of(line);
            if ends_with_unescaped_quote(line) {
                buf.push('\n');
                let head = string_from_range(&lv, 0, lv.len() - 1);
                push_all(&mut buf, head.as_str());
                proof {
                    assert(head@ =~= line@.drop_last());
                    assert(buf@ =~= old_buf + seq!['\n'] + line@.drop_last());
                }
                let value = escape_value(buf.as_str());
                let ghost sv = s@;
                let r = store_value(s, value.as_str());
                proof {
                    assert(store_string(sv, value@) == store_string(c0, value@));
                }
                proof {
                    assert(spec_process_line(line@, old_view, 0) == (r.0@, opt_view(r.1)));
                }
                return r;
            } else {
                buf.push('\n');
                push_all(&mut buf, line);
                proof {
                    assert(buf@ =~= old_buf + seq!['\n'] + line@);
                }
                s.string_buf = Some(buf);
                let r = (ParseState::Collecting(s), None);
                proof {
                    assert(spec_process_line(line@, old_view, 0) == (r.0@, opt_view(r.1)));
                }
                return r;
            }
        },
        st => {
            if !starts_with_str(line, "   ") {
                if contains_str(line, "member=Notify") {
                    let ts = extract_timestamp(line);
                    let c = NotifyCollecting {
                        timestamp: ts,
                        field_idx: 0,
                        app_name: String::new(),
                        summary: String::new(),
                        body: String::new(),
                        string_buf: None,
                    };
                    let r = (ParseState::Collecting(c), None);
                    proof {
                        assert(r.0@ == ParseView::Collecting(fresh_collecting(ts as int)));
                        assert(spec_process_line(line@, old_view, ts as int) == (r.0@, opt_view(
                            r.1,
                        )));
                    }
                    return r;
                } else {
                    let r = (ParseState::Idle, None);
                    proof {
                        assert(spec_process_line(line@, old_view, 0) == (r.0@, opt_view(r.1)));
                    }
                    return r;
                }
            }
            let r = match st {
                ParseState::Idle => (ParseState::Idle, None),
                ParseState::Collecting(mut s) => {
                    if s.field_idx >= 5 {
                        let r = (ParseState::Collecting(s), None);
                        proof {
                            assert(spec_process_line(line@, old_view, 0) == (r.0@, opt_view(r.1)));
                        }
                        return r;
                    }
                    let trimmed = trim_string(line);
                    if starts_with_str(trimmed.as_str(), "string \"") {
                        let tv = chars_of(trimmed.as_str());
                        proof {
                            reveal_strlit("string \"");
                        }
                        let after_quote = string_from_range(&tv, 8, tv.len());
                        if ends_with_unescaped_quote(after_quote.as_str()) {
                            let av = chars_of(after_quote.as_str());
                            let inner = string_from_range(&av, 0, av.len() - 1);
                            proof {
                                assert(inner@ =~= after_quote@.drop_last());
                            }
                            let value = escape_value(inner.as_str());
                            store_value(s, value.as_str())
                        } else {
                            proof {
                                assert(after_quote@ =~= trim(line@).skip(8));
                            }
                            s.string_buf = Some(after_quote);
                            (ParseState::Collecting(s), None)
                        }
                    } else if is_primitive_field(trimmed.as_str()) {
                        s.field_idx = s.field_idx + 1;
                        (ParseState::Collecting(s), None)
                    } else {
                        (ParseState::Collecting(s), None)
                    }
                },
            };
            proof {
                assert(spec_process_line(line@, old_view, 0) == (r.0@, opt_view(r.1)));
            }
            r
        },
    }
}

/// Feed one line of `dbus-monitor` output to the parser; returns the
/// notification that the line completes, if any.
///
/// `now` in the contract is the time that a `Notify` header without a
/// readable `time=` field is given (the clock at that moment).
pub fn process_line(line: &str, state: &mut ParseState) -> (r: Option<Notification>)
    requires
        old(state).wf(),
        reads_header_time(line@, old(state)@) ==> header_time_ok(line@),
    ensures
        final(state).wf(),
        exists|now: int| spec_process_line(line@, old(state)@, now) == (final(state)@, opt_view(r)),
        header_time(line@) is Some ==> spec_process_line(line@, old(state)@, 0) == (
            final(state)@,
            opt_view(r),
        ),
{
    let mut st = ParseState::Idle;
    std::mem::swap(&mut st, state);
    let (next, r) = step(line, st);
    *state = next;
    r
}

// ── Prepending to the history file ────────────────────────────────────────────

/// The lines `ls`, each followed by a newline.
pub open spec fn concat_lines(ls: Seq<Seq<char>>) -> Seq<char>
    decreases ls.len(),
{
    if ls.len() == 0 {
        seq![]
    } else {
        ls[0] + seq!['\n'] + concat_lines(ls.drop_first())
    }
}

/// The new content of the history file once `line` is recorded: `line` and
/// a newline first (newest first), then the old content; with a limit
/// `max_history > 0`, only the first `max_history - 1` old lines are kept,
/// so that the file holds at most `max_history` notifications.
pub open spec fn spec_prepend(existing: Seq<char>, line: Seq<char>, max_history: int) -> Seq<char> {
    if max_history > 0 {
        let old_lines = spec_lines(existing);
        let keep = if old_lines.len() < max_history - 1 {
            old_lines.len() as int
        } else {
            max_history - 1
        };
        line + seq!['\n'] + concat_lines(old_lines.take(keep))
    } else {
        line + seq!['\n'] + existing
    }
}

/// The new content of the history file once `line` is recorded at its top,
/// given its current content `existing` and the history limit (0 = none).
pub fn prepend_content(existing: &str, line: &str, max_history: usize) -> (r: String)
    ensures
        r@ == spec_prepend(existing@, line@, max_history as int),
{
    let mut out = String::new();
    push_all(&mut out, line);
    out.push('\n');
    if max_history > 0 {
        let lines = split_lines(existing);
        let ghost ls = spec_lines(existing@);
        let keep = if lines.len() < max_history - 1 {
            lines.len()
        } else {
            max_history - 1
        };
        let ghost head = out@;
        let mut i: usize = 0;
        proof {
            assert(ls.take(keep as int).skip(0) =~= ls.take(keep as int));
        }
        while i < keep
            invariant
                i <= keep <= lines.len(),
                views(lines@) == ls,
                out@ + concat_lines(ls.take(keep as int).skip(i as int)) == head + concat_lines(
                    ls.take(keep as int),
                ),
            decreases keep - i,
        {
            let ghost before = out@;
            let ghost rest = ls.take(keep as int).skip(i as int);
            proof {
                assert(views(lines@)[i as int] == lines@[i as int]@);
                assert(rest[0] == lines@[i as int]@);
                assert(rest.drop_first() =~= ls.take(keep as int).skip(i + 1));
            }
            push_all(&mut out, lines[i].as_str());
            out.push('\n');
            proof {
                assert(before + concat_lines(rest) =~= out@ + concat_lines(
                    ls.take(keep as int).skip(i + 1),
                ));
            }
            i += 1;
        }
        proof {
            assert(ls.take(keep as int).skip(keep as int) =~= Seq::<Seq<char>>::empty());
            assert(out@ + Seq::<char>::empty() =~= out@);
            assert(out@ =~= line@ + seq!['\n'] + concat_lines(ls.take(keep as int)));
        }
    } else {
        push_all(&mut out, existing);
        proof {
            assert(out@ =~= line@ + seq!['\n'] + existing@);
        }
    }
    out
}

proof fn lemma_lines_no_newline(s: Seq<char>)
    ensures
        forall|i: int, j: int|
            0 <= i < spec_lines(s).len() && 0 <= j < spec_lines(s)[i].len() ==> #[trigger] spec_lines(
                s,
            )[i][j] != '\n',
    decreases s.len(),
{
    if s.len() > 0 {
        let k = first_index_of(s, '\n');
        crate::text::lemma_first_index_of_props(s, '\n');
        if k < s.len() {
            lemma_lines_no_newline(s.skip(k as int + 1));
            let ls = spec_lines(s);
            assert forall|i: int, j: int|
                0 <= i < ls.len() && 0 <= j < ls[i].len() implies #[trigger] ls[i][j] != '\n' by {
                if i == 0 {
                    assert(ls[0] == crate::text::strip_cr(s.take(k as int)));
                    assert(ls[0][j] == s[j]);
                } else {
                    assert(ls[i] == spec_lines(s.skip(k as int + 1))[i - 1]);
                }
            }
        }
    }
}

proof fn lemma_lines_of_concat(ls: Seq<Seq<char>>)
    requires
        forall|i: int, j: int| 0 <= i < ls.len() && 0 <= j < ls[i].len() ==> #[trigger] ls[i][j] != '\n',
    ensures
        spec_lines(concat_lines(ls)).len() == ls.len(),
    decreases ls.len(),
{
    if ls.len() > 0 {
        let l = ls[0];
        let r = concat_lines(ls.drop_first());
        let s = l + seq!['\n'] + r;
        assert(concat_lines(ls) == s);
        assert forall|i: int, j: int|
            0 <= i < ls.drop_first().len() && 0 <= j < ls.drop_first()[i].len() implies #[trigger] ls.drop_first()[i][j]
            != '\n' by {
            assert(ls.drop_first()[i] == ls[i + 1]);
        }
        lemma_lines_of_concat(ls.drop_first());
        assert forall|j: int| 0 <= j < l.len() implies s[j] != '\n' by {
            assert(s[j] == l[j]);
            assert(ls[0][j] != '\n');
        }
        lemma_first_index_of(s, '\n', l.len() as int);
        assert(s.skip(l.len() as int + 1) =~= r);
    }
}

/// With a history limit, the history file never holds more lines than the
/// limit after a notification line (one without a newline) is recorded.
pub proof fn lemma_prepend_bounded(existing: Seq<char>, line: Seq<char>, max_history: int)
    requires
        max_history > 0,
        forall|j: int| 0 <= j < line.len() ==> line[j] != '\n',
    ensures
        spec_lines(spec_prepend(existing, line, max_history)).len() <= max_history,
{
    let old_lines = spec_lines(existing);
    let keep = if old_lines.len() < max_history - 1 {
        old_lines.len() as int
    } else {
        max_history - 1
    };
    let kept = old_lines.take(keep);
    lemma_lines_no_newline(existing);
    assert forall|i: int, j: int| 0 <= i < kept.len() && 0 <= j < kept[i].len() implies #[trigger] kept[i][j]
        != '\n' by {
        assert(kept[i] == old_lines[i]);
    }
    lemma_lines_of_concat(kept);
    let ls = seq![line] + kept;
    assert forall|i: int, j: int| 0 <= i < ls.len() && 0 <= j < ls[i].len() implies #[trigger] ls[i][j]
        != '\n' by {
        if i > 0 {
            assert(ls[i] == kept[i - 1]);
        }
    }
    lemma_lines_of_concat(ls);
    assert(ls.drop_first() =~= kept);
    assert(concat_lines(ls) == spec_prepend(existing, line, max_history));
}

/// Whether `process_line` can take `line` in state `st`: when the line is
/// a `Notify` header read in that state, reading its time must be safe.
pub fn line_acceptable(line: &str, state: &ParseState) -> (r: bool)
    ensures
        r == (reads_header_time(line@, state@) ==> header_time_ok(line@)),
{
    let buffering = match state {
        ParseState::Collecting(c) => c.string_buf.is_some(),
        ParseState::Idle => false,
    };
    if buffering || starts_with_str(line, "   ") || !contains_str(line, "member=Notify") {
        true
    } else {
        header_time_fits(line)
    }
}

// ── One notification per call ─────────────────────────────────────────────────

/// Whether `line` is an unindented `Notify` header, the only line that
/// starts a new call.
pub open spec fn is_notify_header(line: Seq<char>) -> bool {
    !occurs_at(line, "   "@, 0) && contains_seq(line, "member=Notify"@)
}

/// Whether no notification can come before the next `Notify` header:
/// between calls, or past the fifth argument of one.
pub open spec fn spent(st: ParseView) -> bool {
    match st {
        ParseView::Idle => true,
        ParseView::Collecting(c) => c.field_idx >= 5 && c.string_buf is None,
    }
}

/// What feeding `lines` in turn from state `st` gives for each line, the
/// `i`-th line read at time `nows[i]`.
pub open spec fn run_lines(lines: Seq<Seq<char>>, st: ParseView, nows: Seq<int>) -> Seq<
    Option<NotifView>,
>
    decreases lines.len(),
{
    if lines.len() == 0 || nows.len() == 0 {
        seq![]
    } else {
        let step = spec_process_line(lines[0], st, nows[0]);
        seq![step.1] + run_lines(lines.drop_first(), step.0, nows.drop_first())
    }
}

proof fn lemma_spent_run(lines: Seq<Seq<char>>, st: ParseView, nows: Seq<int>)
    requires
        spent(st),
        forall|i: int| 0 <= i < lines.len() ==> !is_notify_header(#[trigger] lines[i]),
    ensures
        forall|j: int| 0 <= j < run_lines(lines, st, nows).len() ==> (#[trigger] run_lines(
            lines,
            st,
            nows,
        )[j]) is None,
    decreases lines.len(),
{
    if lines.len() > 0 && nows.len() > 0 {
        let step = spec_process_line(lines[0], st, nows[0]);
        assert(!is_notify_header(lines[0]));
        assert(step.1 is None && spent(step.0));
        let rest = lines.drop_first();
        assert forall|i: int| 0 <= i < rest.len() implies !is_notify_header(#[trigger] rest[i]) by {
            assert(rest[i] == lines[i + 1]);
        }
        lemma_spent_run(rest, step.0, nows.drop_first());
        let r = run_lines(lines, st, nows);
        assert forall|j: int| 0 <= j < r.len() implies (#[trigger] r[j]) is None by {
            if j > 0 {
                assert(r[j] == run_lines(rest, step.0, nows.drop_first())[j - 1]);
            }
        }
    }
}

/// At most one notification per `Notify` call: once a line completes a
/// notification, no line gives another until the next `Notify` header,
/// whatever the lines in between.
pub proof fn lemma_one_notification_per_call(
    line: Seq<char>,
    st: ParseView,
    now: int,
    lines: Seq<Seq<char>>,
    nows: Seq<int>,
)
    requires
        spec_process_line(line, st, now).1 is Some,
        forall|i: int| 0 <= i < lines.len() ==> !is_notify_header(#[trigger] lines[i]),
    ensures
        forall|j: int|
            0 <= j < run_lines(lines, spec_process_line(line, st, now).0, nows).len() ==> (
            #[trigger] run_lines(lines, spec_process_line(line, st, now).0, nows)[j]) is None,
{
    let after = spec_process_line(line, st, now).0;
    assert(spent(after));
    lemma_spent_run(lines, after, nows);
}

} // verus!
