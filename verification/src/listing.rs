//! The notification list as drawn: for each item of the current page a
//! title row, the body rows, the time row and a separator, with the
//! filter's matches highlighted and the cursor's item on the highlight
//! background.
use vstd::prelude::*;

use crate::app::{displayed_body, indices_or_empty, App};
use crate::filter::skim_indices;
use crate::layout::{pad_spec, pad_to_width, push_seg, segs_view, Row, RowView, Seg, SegView, Tone};
use crate::notification::NotifView;
use crate::popup::sat_sub;
use crate::text::{chars_of, spaces, spec_lines, views};
use crate::wrap::{
    match_runs, match_segments, pieces_view, runs_view, str_columns, truncate_spec,
    truncate_to_cols, wrap_spec, wrap_to_cols,
};

verus! {

// ── Highlighted text ──────────────────────────────────────────────────────────

/// Runs of text as pieces: matched runs in the match colour, the others in
/// `normal`.
pub open spec fn runs_segs(runs: Seq<(Seq<char>, bool)>, normal: Tone, lit: bool) -> Seq<SegView> {
    runs.map_values(
        |r: (Seq<char>, bool)|
            (r.0, if r.1 {
                Tone::Match
            } else {
                normal
            }, lit),
    )
}

/// `text` with the characters at `idx` in the match colour.
pub open spec fn styled(text: Seq<char>, idx: Seq<usize>, normal: Tone, lit: bool) -> Seq<SegView> {
    runs_segs(match_runs(text, idx), normal, lit)
}

/// The positions of `idx` within `start .. start + len`, made relative to
/// `start`.
pub open spec fn remap(idx: Seq<usize>, start: int, len: int) -> Seq<usize>
    decreases idx.len(),
{
    if idx.len() == 0 {
        seq![]
    } else {
        let r = remap(idx.drop_last(), start, len);
        let i = idx.last() as int;
        if start <= i < start + len {
            r.push((i - start) as usize)
        } else {
            r
        }
    }
}

fn remap_exec(idx: &Vec<usize>, start: usize, len: usize) -> (r: Vec<usize>)
    ensures
        r@ == remap(idx@, start as int, len as int),
{
    let mut out: Vec<usize> = Vec::new();
    let mut j: usize = 0;
    while j < idx.len()
        invariant
            j <= idx@.len(),
            out@ == remap(idx@.take(j as int), start as int, len as int),
        decreases idx.len() - j,
    {
        let i = idx[j];
        proof {
            assert(idx@.take(j + 1).drop_last() =~= idx@.take(j as int));
        }
        if i >= start && i - start < len {
            out.push(i - start);
        }
        j += 1;
    }
    proof {
        assert(idx@.take(j as int) =~= idx@);
    }
    out
}

/// Append `text` with the characters at `idx` highlighted.
fn push_styled(out: &mut Vec<Seg>, text: &str, idx: &Vec<usize>, normal: Tone, lit: bool)
    ensures
        segs_view(final(out)@) == segs_view(old(out)@) + styled(text@, idx@, normal, lit),
{
    let runs = match_segments(text, idx);
    let ghost rv = runs_view(runs@);
    let ghost base = segs_view(out@);
    let mut i: usize = 0;
    while i < runs.len()
        invariant
            i <= runs@.len(),
            rv == runs_view(runs@),
            rv == match_runs(text@, idx@),
            segs_view(out@) == base + runs_segs(rv.take(i as int), normal, lit),
        decreases runs.len() - i,
    {
        let t = runs[i].0.clone();
        let m = runs[i].1;
        proof {
            assert(rv[i as int] == (t@, m));
        }
        let tone = if m {
            Tone::Match
        } else {
            normal
        };
        push_seg(out, t, tone, lit);
        proof {
            assert(runs_segs(rv.take(i + 1), normal, lit) =~= runs_segs(
                rv.take(i as int),
                normal,
                lit,
            ).push((t@, tone, lit)));
        }
        i += 1;
    }
    proof {
        assert(rv.take(i as int) =~= rv);
    }
}

/// `text` cut to `avail - 3` columns with `...` after it, the highlights
/// kept on the characters that remain.
pub open spec fn truncated_styled(text: Seq<char>, idx: Seq<usize>, avail: int, lit: bool) -> Seq<
    SegView,
> {
    let t = truncate_spec(text, sat_sub(avail, 3));
    styled(t + "..."@, remap(idx, 0, t.len() as int), Tone::Text, lit)
}

fn push_truncated(out: &mut Vec<Seg>, text: &str, idx: &Vec<usize>, avail: usize, lit: bool)
    ensures
        segs_view(final(out)@) == segs_view(old(out)@) + truncated_styled(
            text@,
            idx@,
            avail as int,
            lit,
        ),
{
    let mut t = truncate_to_cols(text, avail.saturating_sub(3));
    let kept = chars_of(t.as_str()).len();
    let filtered = remap_exec(idx, 0, kept);
    crate::text::push_all(&mut t, "...");
    push_styled(out, t.as_str(), &filtered, Tone::Text, lit);
}

// ── The rows of one item ──────────────────────────────────────────────────────

/// The matched positions in an item's summary, app name and each body line.
pub type Matches = (Seq<usize>, Seq<usize>, Seq<Seq<usize>>);

/// What the filter query `q` highlights in a notification: nothing for an
/// empty query, else the matcher's positions in the summary, the app name
/// and each displayed body line.
pub open spec fn match_view(n: NotifView, q: Seq<char>, escape: bool) -> Matches {
    if q.len() == 0 {
        (seq![], seq![], seq![])
    } else {
        (
            indices_or_empty(skim_indices(n.2, q)),
            indices_or_empty(skim_indices(n.1, q)),
            spec_lines(displayed_body(n, escape)).map_values(
                |l: Seq<char>| indices_or_empty(skim_indices(l, q)),
            ),
        )
    }
}

/// The text of the title row after its marker, in `avail` columns: the
/// summary and, when asked for and there is room, ` — ` and the app name;
/// a summary too wide is cut with `...`.
pub open spec fn title_text(n: NotifView, m: Matches, avail: int, show_app: bool, lit: bool) -> Seq<
    SegView,
> {
    let sw = str_columns(n.2) as int;
    let summary = styled(n.2, m.0, Tone::Text, lit);
    if show_app && n.1.len() > 0 {
        let aw = str_columns(n.1) as int;
        if sw + 3 + aw <= avail {
            summary + seq![(" — "@, Tone::Text, lit)] + styled(n.1, m.1, Tone::Accent, lit)
        } else if sw <= avail {
            summary
        } else {
            truncated_styled(n.2, m.0, avail, lit)
        }
    } else if sw <= avail {
        summary
    } else {
        truncated_styled(n.2, m.0, avail, lit)
    }
}

/// The title row: a marker (`●` selected, `│` cursor) and the title text,
/// padded to the full width on the cursor's item.
pub open spec fn title_row(
    n: NotifView,
    m: Matches,
    width: int,
    show_app: bool,
    selected: bool,
    cursor: bool,
) -> RowView {
    let marker = if selected {
        "● "@
    } else if cursor {
        "│ "@
    } else {
        "  "@
    };
    let segs = seq![(marker, Tone::Accent, cursor)] + title_text(
        n,
        m,
        sat_sub(width, 2),
        show_app,
        cursor,
    );
    (if cursor {
        pad_spec(segs, width, Tone::Text, true)
    } else {
        segs
    }, Tone::Text, cursor)
}

/// The body's source lines wrapped to `avail` columns, each sub-line with
/// the matched positions that fall in it.
pub open spec fn sub_lines(lines: Seq<Seq<char>>, bpl: Seq<Seq<usize>>, avail: int) -> Seq<
    (Seq<char>, Seq<usize>),
>
    decreases lines.len(),
{
    if lines.len() == 0 {
        seq![]
    } else {
        let k = lines.len() - 1;
        let idx = if k < bpl.len() {
            bpl[k]
        } else {
            seq![]
        };
        sub_lines(lines.drop_last(), bpl, avail) + wrap_spec(lines.last(), avail).map_values(
            |p: (Seq<char>, int)| (p.0, remap(idx, p.1, p.0.len() as int)),
        )
    }
}

/// The columns for body text: the width less a three-column prefix, at
/// least one.
pub open spec fn body_avail(width: int) -> int {
    if width > 4 {
        width - 3
    } else {
        1
    }
}

/// Body row `slot` of `count`: a prefix, then that sub-line (the last slot
/// cut with `...` when more sub-lines follow) or nothing.
pub open spec fn body_slot(
    subs: Seq<(Seq<char>, Seq<usize>)>,
    slot: int,
    count: int,
    width: int,
    cursor: bool,
) -> RowView {
    let avail = body_avail(width);
    let prefix = if cursor {
        ("│  "@, Tone::Accent, true)
    } else {
        ("   "@, Tone::Text, false)
    };
    let content = if slot < subs.len() {
        if slot + 1 == count && subs.len() > count {
            truncated_styled(subs[slot].0, subs[slot].1, avail, cursor)
        } else {
            styled(subs[slot].0, subs[slot].1, Tone::Text, cursor)
        }
    } else {
        seq![]
    };
    let segs = seq![prefix] + content;
    (if cursor {
        pad_spec(segs, width, Tone::Text, true)
    } else {
        segs
    }, Tone::Text, cursor)
}

/// The body rows of an item: `count` of them.
pub open spec fn body_rows(
    n: NotifView,
    m: Matches,
    width: int,
    count: int,
    escape: bool,
    cursor: bool,
) -> Seq<RowView> {
    let subs = sub_lines(spec_lines(displayed_body(n, escape)), m.2, body_avail(width));
    Seq::new(count as nat, |slot: int| body_slot(subs, slot, count, width, cursor))
}

/// The time row: a prefix and the time, dimmed.
pub open spec fn date_row(date: Seq<char>, width: int, cursor: bool) -> RowView {
    let prefix = if cursor {
        ("│  "@, Tone::Accent, true)
    } else {
        ("   "@, Tone::Faint, false)
    };
    let segs = seq![prefix, (date, Tone::Faint, cursor)];
    (if cursor {
        pad_spec(segs, width, Tone::Text, true)
    } else {
        segs
    }, Tone::Faint, cursor)
}

/// A separator rule across the width.
pub open spec fn separator_row(width: int) -> RowView {
    (seq![(Seq::new(width as nat, |i: int| '─'), Tone::Rule, false)], Tone::Base, false)
}

/// The matched positions of an item as plain values.
pub open spec fn matches_of(m: &crate::app::NotifMatchIndices) -> Matches {
    (m.summary@, m.app_name@, m.body_per_line@.map_values(|v: Vec<usize>| v@))
}

fn title_row_exec(
    n: &crate::notification::Notification,
    m: &crate::app::NotifMatchIndices,
    width: u16,
    show_app: bool,
    selected: bool,
    cursor: bool,
) -> (r: Row)
    ensures
        r@ == title_row(n@, matches_of(m), width as int, show_app, selected, cursor),
{
    let marker = if selected {
        "● "
    } else if cursor {
        "│ "
    } else {
        "  "
    };
    let avail = (width as usize).saturating_sub(2);
    let summary_w = crate::wrap::display_width(n.summary.as_str());
    let mut segs: Vec<Seg> = Vec::new();
    proof {
        assert(segs_view(segs@) =~= Seq::<SegView>::empty());
    }
    push_seg(&mut segs, marker.to_owned(), Tone::Accent, cursor);
    let ghost head = segs_view(segs@);
    let ghost mv = matches_of(m);
    if show_app && !n.app_name.as_str().is_empty() {
        let app_w = crate::wrap::display_width(n.app_name.as_str());
        if summary_w <= avail && app_w <= avail - summary_w && 3 <= avail - summary_w - app_w {
            push_styled(&mut segs, n.summary.as_str(), &m.summary, Tone::Text, cursor);
            push_seg(&mut segs, " — ".to_owned(), Tone::Text, cursor);
            push_styled(&mut segs, n.app_name.as_str(), &m.app_name, Tone::Accent, cursor);
        } else if summary_w <= avail {
            push_styled(&mut segs, n.summary.as_str(), &m.summary, Tone::Text, cursor);
        } else {
            push_truncated(&mut segs, n.summary.as_str(), &m.summary, avail, cursor);
        }
    } else if summary_w <= avail {
        push_styled(&mut segs, n.summary.as_str(), &m.summary, Tone::Text, cursor);
    } else {
        push_truncated(&mut segs, n.summary.as_str(), &m.summary, avail, cursor);
    }
    proof {
        assert(segs_view(segs@) =~= head + title_text(n@, mv, sat_sub(width as int, 2), show_app, cursor));
    }
    if cursor {
        pad_to_width(&mut segs, width, Tone::Text, true);
    }
    Row { segs, tone: Tone::Text, lit: cursor }
}

/// The sub-lines of one source line, appended.
fn push_sub_lines(
    out: &mut Vec<(String, Vec<usize>)>,
    line: &str,
    idx: &Vec<usize>,
    avail: usize,
)
    requires
        avail >= 1,
    ensures
        subs_view(final(out)@) == subs_view(old(out)@) + wrap_spec(line@, avail as int).map_values(
            |p: (Seq<char>, int)| (p.0, remap(idx@, p.1, p.0.len() as int)),
        ),
{
    let pieces = wrap_to_cols(line, avail);
    let ghost pv = pieces_view(pieces@);
    let ghost f = |p: (Seq<char>, int)| (p.0, remap(idx@, p.1, p.0.len() as int));
    let ghost base = subs_view(out@);
    let mut i: usize = 0;
    while i < pieces.len()
        invariant
            i <= pieces@.len(),
            pv == pieces_view(pieces@),
            f == (|p: (Seq<char>, int)| (p.0, remap(idx@, p.1, p.0.len() as int))),
            subs_view(out@) == base + pv.take(i as int).map_values(f),
        decreases pieces.len() - i,
    {
        let t = pieces[i].0.clone();
        let start = pieces[i].1;
        let len = chars_of(t.as_str()).len();
        let r = remap_exec(idx, start, len);
        proof {
            assert(pv[i as int] == (t@, start as int));
        }
        let ghost before = out@;
        let ghost tv = t@;
        let ghost rv = r@;
        out.push((t, r));
        proof {
            assert(subs_view(out@) =~= subs_view(before).push((tv, rv)));
            assert(pv.take(i + 1).map_values(f) =~= pv.take(i as int).map_values(f).push(
                f(pv[i as int]),
            ));
        }
        i += 1;
    }
    proof {
        assert(pv.take(i as int) =~= pv);
    }
}

/// The views of sub-lines with their matched positions.
pub open spec fn subs_view(v: Seq<(String, Vec<usize>)>) -> Seq<(Seq<char>, Seq<usize>)> {
    v.map_values(|p: (String, Vec<usize>)| (p.0@, p.1@))
}

fn build_sub_lines(lines: &Vec<String>, bpl: &Vec<Vec<usize>>, avail: usize) -> (r: Vec<
    (String, Vec<usize>),
>)
    requires
        avail >= 1,
    ensures
        subs_view(r@) == sub_lines(views(lines@), bpl@.map_values(|v: Vec<usize>| v@), avail as int),
{
    let ghost ls = views(lines@);
    let ghost bv = bpl@.map_values(|v: Vec<usize>| v@);
    let mut out: Vec<(String, Vec<usize>)> = Vec::new();
    let empty: Vec<usize> = Vec::new();
    let mut i: usize = 0;
    proof {
        assert(subs_view(out@) =~= sub_lines(ls.take(0), bv, avail as int));
    }
    while i < lines.len()
        invariant
            i <= lines@.len(),
            ls == views(lines@),
            bv == bpl@.map_values(|v: Vec<usize>| v@),
            empty@.len() == 0,
            avail >= 1,
            subs_view(out@) == sub_lines(ls.take(i as int), bv, avail as int),
        decreases lines.len() - i,
    {
        let idx: &Vec<usize> = if i < bpl.len() {
            &bpl[i]
        } else {
            &empty
        };
        proof {
            assert(ls.take(i + 1).drop_last() =~= ls.take(i as int));
            assert(ls.take(i + 1).last() == lines@[i as int]@);
            if i < bpl@.len() {
                assert(bv[i as int] == bpl@[i as int]@);
            }
            assert(idx@ == if i < bv.len() {
                bv[i as int]
            } else {
                seq![]
            });
        }
        push_sub_lines(&mut out, lines[i].as_str(), idx, avail);
        i += 1;
    }
    proof {
        assert(ls.take(i as int) =~= ls);
    }
    out
}

fn body_slot_exec(
    subs: &Vec<(String, Vec<usize>)>,
    slot: usize,
    count: usize,
    width: u16,
    cursor: bool,
) -> (r: Row)
    requires
        slot < count,
    ensures
        r@ == body_slot(subs_view(subs@), slot as int, count as int, width as int, cursor),
{
    let avail = {
        let a = (width as usize).saturating_sub(3);
        if a < 1 {
            1
        } else {
            a
        }
    };
    let mut segs: Vec<Seg> = Vec::new();
    proof {
        assert(segs_view(segs@) =~= Seq::<SegView>::empty());
    }
    if cursor {
        push_seg(&mut segs, "│  ".to_owned(), Tone::Accent, true);
    } else {
        push_seg(&mut segs, "   ".to_owned(), Tone::Text, false);
    }
    let ghost head = segs_view(segs@);
    let ghost sv = subs_view(subs@);
    if slot < subs.len() {
        proof {
            assert(sv[slot as int] == (subs@[slot as int].0@, subs@[slot as int].1@));
        }
        if slot + 1 == count && subs.len() > count {
            push_truncated(&mut segs, subs[slot].0.as_str(), &subs[slot].1, avail, cursor);
        } else {
            push_styled(&mut segs, subs[slot].0.as_str(), &subs[slot].1, Tone::Text, cursor);
        }
    } else {
        proof {
            assert(head + Seq::<SegView>::empty() =~= head);
        }
    }
    if cursor {
        pad_to_width(&mut segs, width, Tone::Text, true);
    }
    Row { segs, tone: Tone::Text, lit: cursor }
}

fn date_row_exec(date: &str, width: u16, cursor: bool) -> (r: Row)
    ensures
        r@ == date_row(date@, width as int, cursor),
{
    let mut segs: Vec<Seg> = Vec::new();
    proof {
        assert(segs_view(segs@) =~= Seq::<SegView>::empty());
    }
    if cursor {
        push_seg(&mut segs, "│  ".to_owned(), Tone::Accent, true);
    } else {
        push_seg(&mut segs, "   ".to_owned(), Tone::Faint, false);
    }
    push_seg(&mut segs, date.to_owned(), Tone::Faint, cursor);
    proof {
        let prefix = if cursor {
            ("│  "@, Tone::Accent, true)
        } else {
            ("   "@, Tone::Faint, false)
        };
        assert(segs_view(segs@) =~= seq![prefix, (date@, Tone::Faint, cursor)]);
    }
    if cursor {
        pad_to_width(&mut segs, width, Tone::Text, true);
    }
    Row { segs, tone: Tone::Faint, lit: cursor }
}

fn separator_row_exec(width: u16) -> (r: Row)
    ensures
        r@ == separator_row(width as int),
{
    let mut rule = String::new();
    let mut i: u16 = 0;
    while i < width
        invariant
            i <= width,
            rule@ == Seq::new(i as nat, |j: int| '─'),
        decreases width - i,
    {
        rule.push('─');
        i += 1;
        proof {
            assert(rule@ =~= Seq::new(i as nat, |j: int| '─'));
        }
    }
    let mut segs: Vec<Seg> = Vec::new();
    proof {
        assert(segs_view(segs@) =~= Seq::<SegView>::empty());
    }
    push_seg(&mut segs, rule, Tone::Rule, false);
    Row { segs, tone: Tone::Base, lit: false }
}

// ── The rows of the page ──────────────────────────────────────────────────────

/// The rows of one item: title, `body_lines` body rows, time, and a
/// separator unless it is the last item of the page.
pub open spec fn item_rows(
    n: NotifView,
    m: Matches,
    width: int,
    show_app: bool,
    body_lines: int,
    escape: bool,
    selected: bool,
    cursor: bool,
    date: Seq<char>,
    last: bool,
) -> Seq<RowView> {
    seq![title_row(n, m, width, show_app, selected, cursor)] + body_rows(
        n,
        m,
        width,
        body_lines,
        escape,
        cursor,
    ) + seq![date_row(date, width, cursor)] + if last {
        seq![]
    } else {
        seq![separator_row(width)]
    }
}

/// The first displayed index on the current page.
pub open spec fn page_start(a: &App) -> int {
    a.page * a.items_per_page
}

/// One past the last displayed index on the current page.
pub open spec fn page_end(a: &App) -> int {
    let e = page_start(a) + a.items_per_page;
    if e < a.display_list@.len() {
        e
    } else {
        a.display_list@.len() as int
    }
}

/// The rows of the item at position `pos` of the current page, with
/// `dates[pos]` as its time.
pub open spec fn list_item_rows(a: &App, width: int, dates: Seq<Seq<char>>, pos: int) -> Seq<
    RowView,
> {
    let disp = page_start(a) + pos;
    let idx = a.display_list@[disp];
    let n = a.notifs()[idx as int];
    item_rows(
        n,
        match_view(n, a.filter_input@, a.config.display.escape_body),
        width,
        a.config.display.show_app,
        a.effective_body_lines as int,
        a.config.display.escape_body,
        a.multi_selected@.contains(idx),
        disp == a.position(),
        dates[pos],
        pos + 1 == page_end(a) - page_start(a),
    )
}

/// The rows of the first `k` items of the current page.
pub open spec fn list_rows_upto(a: &App, width: int, dates: Seq<Seq<char>>, k: int) -> Seq<RowView>
    decreases k,
{
    if k <= 0 {
        seq![]
    } else {
        list_rows_upto(a, width, dates, k - 1) + list_item_rows(a, width, dates, k - 1)
    }
}

/// The row shown when the page is empty.
pub open spec fn empty_row(filtering: bool) -> RowView {
    (
        seq![
            (if filtering {
                "  No notifications match the filter."@
            } else {
                "  No notifications."@
            }, Tone::Text, false),
        ],
        Tone::Base,
        false,
    )
}

/// The rows of the notification list `width` columns wide, the items of
/// the current page taking their times from `dates`; a message when the
/// page is empty.
pub open spec fn list_rows_spec(a: &App, width: int, dates: Seq<Seq<char>>) -> Seq<RowView> {
    let count = page_end(a) - page_start(a);
    if count <= 0 {
        seq![empty_row(a.filter_input@.len() > 0)]
    } else {
        list_rows_upto(a, width, dates, count)
    }
}

impl App {
    fn push_item_rows(&self, out: &mut Vec<Row>, width: u16, disp: usize, date: &str, last: bool)
        requires
            self.wf(),
            disp < self.display_list@.len(),
        ensures
            crate::layout::rows_view(final(out)@) == crate::layout::rows_view(old(out)@) + {
                let idx = self.display_list@[disp as int];
                let n = self.notifs()[idx as int];
                item_rows(
                    n,
                    match_view(n, self.filter_input@, self.config.display.escape_body),
                    width as int,
                    self.config.display.show_app,
                    self.effective_body_lines as int,
                    self.config.display.escape_body,
                    self.multi_selected@.contains(idx),
                    disp == self.position(),
                    date@,
                    last,
                )
            },
    {
        let len = self.display_list.len();
        proof {
            self.lemma_position();
            assert(self.position() < len);
        }
        let notif_idx = self.display_list[disp];
        let notif = &self.all_notifications[notif_idx];
        let ghost n = self.notifs()[notif_idx as int];
        proof {
            assert(n == notif@);
        }
        let is_cursor = disp == self.cursor_display_idx();
        let is_selected = self.multi_selected.contains(&notif_idx);
        let escape = self.config.display.escape_body;
        let m = self.get_match_indices(notif_idx);
        proof {
            let mv = match_view(n, self.filter_input@, escape);
            if self.filter_input@.len() == 0 {
                assert(matches_of(&m).2 =~= mv.2);
            } else {
                let lines = spec_lines(displayed_body(n, escape));
                assert(matches_of(&m).2 =~= mv.2) by {
                    assert forall|i: int| 0 <= i < lines.len() implies #[trigger] matches_of(
                        &m,
                    ).2[i] == mv.2[i] by {
                        assert(m.body_per_line@[i]@ == indices_or_empty(
                            skim_indices(lines[i], self.filter_input@),
                        ));
                    }
                }
            }
            assert(matches_of(&m) == mv);
        }
        let ghost base = crate::layout::rows_view(out@);
        let title = title_row_exec(notif, &m, width, self.config.display.show_app, is_selected, is_cursor);
        let ghost tv = title@;
        out.push(title);
        let ghost after_title = crate::layout::rows_view(out@);
        proof {
            assert(after_title =~= base.push(tv));
        }
        let count = self.effective_body_lines;
        let body = notif.display_body(escape);
        let lines = crate::text::split_lines(body.as_str());
        let avail = {
            let a = (width as usize).saturating_sub(3);
            if a < 1 {
                1
            } else {
                a
            }
        };
        let subs = build_sub_lines(&lines, &m.body_per_line, avail);
        let ghost sv = subs_view(subs@);
        proof {
            assert(sv == sub_lines(
                spec_lines(displayed_body(n, escape)),
                matches_of(&m).2,
                body_avail(width as int),
            ));
        }
        let mut slot: usize = 0;
        while slot < count
            invariant
                slot <= count,
                sv == subs_view(subs@),
                crate::layout::rows_view(out@) == after_title + Seq::new(
                    slot as nat,
                    |k: int| body_slot(sv, k, count as int, width as int, is_cursor),
                ),
            decreases count - slot,
        {
            let r = body_slot_exec(&subs, slot, count, width, is_cursor);
            let ghost rv = r@;
            let ghost before = out@;
            out.push(r);
            proof {
                assert(crate::layout::rows_view(out@) =~= crate::layout::rows_view(before).push(rv));
                assert(Seq::new(
                    (slot + 1) as nat,
                    |k: int| body_slot(sv, k, count as int, width as int, is_cursor),
                ) =~= Seq::new(
                    slot as nat,
                    |k: int| body_slot(sv, k, count as int, width as int, is_cursor),
                ).push(rv));
            }
            slot += 1;
        }
        let ghost after_body = crate::layout::rows_view(out@);
        let ghost body_part = Seq::new(
            count as nat,
            |k: int| body_slot(sv, k, count as int, width as int, is_cursor),
        );
        let d = date_row_exec(date, width, is_cursor);
        let ghost dv = d@;
        out.push(d);
        proof {
            assert(crate::layout::rows_view(out@) =~= after_body.push(dv));
        }
        let ghost after_date = crate::layout::rows_view(out@);
        if !last {
            let sep = separator_row_exec(width);
            let ghost spv = sep@;
            out.push(sep);
            proof {
                assert(crate::layout::rows_view(out@) =~= after_date.push(spv));
            }
        }
        proof {
            assert(body_part == body_rows(
                n,
                match_view(n, self.filter_input@, escape),
                width as int,
                count as int,
                escape,
                is_cursor,
            ));
            let mv = match_view(n, self.filter_input@, escape);
            assert(crate::layout::rows_view(out@) =~= base + item_rows(
                n,
                mv,
                width as int,
                self.config.display.show_app,
                count as int,
                escape,
                is_selected,
                is_cursor,
                date@,
                last,
            ));
        }
    }
}

/// The columns left for an item's time in a list `width` columns wide.
pub open spec fn date_columns(width: int) -> int {
    if width > 3 {
        width - 3
    } else {
        0
    }
}

/// Whether `t` is what showing timestamp `ts` as local time in a list
/// `width` columns wide can give (see `local_time_text`).
pub open spec fn is_time_text(t: Seq<char>, ts: int, width: int) -> bool {
    crate::notification::local_time_text(t, ts, date_columns(width))
}

impl App {
    /// The first and one-past-last displayed index of the current page.
    fn page_range(&self) -> (r: (usize, usize))
        requires
            self.wf(),
        ensures
            r.0 == page_start(self),
            r.1 == page_end(self),
            r.0 <= r.1 <= self.display_list@.len(),
    {
        let len = self.display_list.len();
        proof {
            if len == 0 {
                assert(self.page * self.items_per_page == 0) by (nonlinear_arith)
                    requires
                        self.page == 0,
                ;
            }
        }
        let start = self.page * self.items_per_page;
        let end = if self.items_per_page < len - start {
            start + self.items_per_page
        } else {
            len
        };
        (start, end)
    }

    /// The rows of the notification list `width` columns wide, the items
    /// of the current page shown with the times in `dates`, in order.
    pub fn list_rows_with_dates(&self, width: u16, dates: &Vec<String>) -> (r: Vec<Row>)
        requires
            self.wf(),
            dates@.len() >= page_end(self) - page_start(self),
        ensures
            crate::layout::rows_view(r@) == list_rows_spec(self, width as int, views(dates@)),
    {
        let (start, end) = self.page_range();
        let mut out: Vec<Row> = Vec::new();
        if start >= end {
            let msg = if self.filter_input.as_str().is_empty() {
                "  No notifications."
            } else {
                "  No notifications match the filter."
            };
            let mut segs: Vec<Seg> = Vec::new();
            proof {
                assert(segs_view(segs@) =~= Seq::<SegView>::empty());
            }
            push_seg(&mut segs, msg.to_owned(), Tone::Text, false);
            let row = Row { segs, tone: Tone::Base, lit: false };
            let ghost rv = row@;
            out.push(row);
            proof {
                assert(rv == empty_row(self.filter_input@.len() > 0));
                assert(crate::layout::rows_view(out@) =~= seq![rv]);
            }
            return out;
        }
        let total = end - start;
        let ghost dv = views(dates@);
        let mut pos: usize = 0;
        proof {
            assert(crate::layout::rows_view(out@) =~= list_rows_upto(self, width as int, dv, 0));
        }
        while pos < total
            invariant
                self.wf(),
                start == page_start(self),
                end == page_end(self),
                start < end <= self.display_list@.len(),
                total == end - start,
                pos <= total,
                dates@.len() >= total,
                dv == views(dates@),
                crate::layout::rows_view(out@) == list_rows_upto(self, width as int, dv, pos as int),
            decreases total - pos,
        {
            proof {
                assert(dv[pos as int] == dates@[pos as int]@);
            }
            self.push_item_rows(&mut out, width, start + pos, dates[pos].as_str(), pos + 1 == total);
            pos += 1;
        }
        out
    }

    /// The rows of the notification list `width` columns wide, each item
    /// of the current page with its time as local time in the longest
    /// format that fits. What the times read depends on the machine's time
    /// zone; everything else is as `list_rows_spec` says for those times.
    pub fn list_rows(&self, width: u16) -> (r: Vec<Row>)
        requires
            self.wf(),
        ensures
            exists|dates: Seq<Seq<char>>|
                {
                    &&& dates.len() == page_end(self) - page_start(self) || (page_end(self)
                        <= page_start(self) && dates.len() == 0)
                    &&& forall|i: int|
                        0 <= i < dates.len() ==> is_time_text(
                            #[trigger] dates[i],
                            self.notifs()[self.display_list@[page_start(self) + i] as int].0,
                            width as int,
                        )
                    &&& crate::layout::rows_view(r@) == list_rows_spec(self, width as int, dates)
                },
    {
        let (start, end) = self.page_range();
        let dt_available = (width as usize).saturating_sub(3);
        let mut dates: Vec<String> = Vec::new();
        let mut i = start;
        while i < end
            invariant
                self.wf(),
                start == page_start(self),
                start <= i <= end,
                end == page_end(self),
                end <= self.display_list@.len(),
                dt_available as int == date_columns(width as int),
                dates@.len() == i - start,
                forall|k: int|
                    0 <= k < dates@.len() ==> is_time_text(
                        #[trigger] views(dates@)[k],
                        self.notifs()[self.display_list@[page_start(self) + k] as int].0,
                        width as int,
                    ),
            decreases end - i,
        {
            let idx = self.display_list[i];
            let d = self.all_notifications[idx].datetime_str_for_width(dt_available);
            let ghost before = dates@;
            dates.push(d);
            proof {
                assert forall|k: int| 0 <= k < dates@.len() implies is_time_text(
                    #[trigger] views(dates@)[k],
                    self.notifs()[self.display_list@[page_start(self) + k] as int].0,
                    width as int,
                ) by {
                    if k < before.len() {
                        assert(views(dates@)[k] == views(before)[k]);
                    } else {
                        assert(self.notifs()[idx as int] == self.all_notifications@[idx as int]@);
                    }
                }
            }
            i += 1;
        }
        let r = self.list_rows_with_dates(width, &dates);
        proof {
            let dv = views(dates@);
            assert(dv.len() == page_end(self) - page_start(self));
            assert(forall|k: int|
                0 <= k < dv.len() ==> is_time_text(
                    #[trigger] dv[k],
                    self.notifs()[self.display_list@[page_start(self) + k] as int].0,
                    width as int,
                ));
        }
        r
    }
}

/// The text of a row's pieces, one after the other.
pub open spec fn segs_text(segs: Seq<SegView>) -> Seq<char>
    decreases segs.len(),
{
    if segs.len() == 0 {
        seq![]
    } else {
        segs_text(segs.drop_last()) + segs.last().0
    }
}

proof fn lemma_segs_text_concat(a: Seq<SegView>, b: Seq<SegView>)
    ensures
        segs_text(a + b) == segs_text(a) + segs_text(b),
    decreases b.len(),
{
    if b.len() == 0 {
        assert(a + b =~= a);
        assert(segs_text(a) + segs_text(b) =~= segs_text(a));
    } else {
        assert((a + b).drop_last() =~= a + b.drop_last());
        lemma_segs_text_concat(a, b.drop_last());
        assert(segs_text(a) + segs_text(b.drop_last()) + b.last().0 =~= segs_text(a) + (segs_text(
            b.drop_last(),
        ) + b.last().0));
    }
}

proof fn lemma_runs_segs_text(runs: Seq<(Seq<char>, bool)>, normal: Tone, lit: bool)
    ensures
        segs_text(runs_segs(runs, normal, lit)) == crate::wrap::concat_runs(runs),
    decreases runs.len(),
{
    if runs.len() > 0 {
        assert(runs_segs(runs, normal, lit).drop_last() =~= runs_segs(runs.drop_last(), normal, lit));
        lemma_runs_segs_text(runs.drop_last(), normal, lit);
    }
}

/// Highlighting keeps the text: the pieces of `styled` spell `text`.
pub proof fn lemma_styled_text(text: Seq<char>, idx: Seq<usize>, normal: Tone, lit: bool)
    ensures
        segs_text(styled(text, idx, normal, lit)) == text,
{
    lemma_runs_segs_text(match_runs(text, idx), normal, lit);
    if idx.len() > 0 {
        crate::wrap::lemma_match_runs(text, idx);
    } else {
        let runs = seq![(text, false)];
        assert(runs.drop_last() =~= Seq::<(Seq<char>, bool)>::empty());
        assert(crate::wrap::concat_runs(runs.drop_last()) =~= Seq::<char>::empty());
        assert(crate::wrap::concat_runs(runs) == crate::wrap::concat_runs(runs.drop_last())
            + runs.last().0);
        assert(crate::wrap::concat_runs(runs) =~= text);
    }
}

/// When a body has more sub-lines than the item has body rows, the last
/// body row shows that more follows: its text ends with `...` (on the
/// cursor's item only the padding spaces come after it).
pub proof fn lemma_body_overflow_marker(
    subs: Seq<(Seq<char>, Seq<usize>)>,
    count: int,
    width: int,
    cursor: bool,
)
    requires
        count >= 1,
        subs.len() > count,
    ensures
        exists|a: Seq<char>, k: nat|
            segs_text(body_slot(subs, count - 1, count, width, cursor).0) == a + "..."@ + spaces(k)
                && (!cursor ==> k == 0),
{
    let slot = count - 1;
    let avail = body_avail(width);
    let t = truncate_spec(subs[slot].0, sat_sub(avail, 3));
    let prefix = if cursor {
        ("│  "@, Tone::Accent, true)
    } else {
        ("   "@, Tone::Text, false)
    };
    let content = truncated_styled(subs[slot].0, subs[slot].1, avail, cursor);
    let segs = seq![prefix] + content;
    lemma_styled_text(t + "..."@, remap(subs[slot].1, 0, t.len() as int), Tone::Text, cursor);
    lemma_segs_text_concat(seq![prefix], content);
    assert(seq![prefix].drop_last() =~= Seq::<SegView>::empty());
    assert(segs_text(seq![prefix].drop_last()) =~= Seq::<char>::empty());
    assert(segs_text(seq![prefix]) =~= prefix.0);
    assert(segs_text(content) == t + "..."@);
    assert(spaces(0) =~= Seq::<char>::empty());
    let a = prefix.0 + t;
    assert(segs_text(segs) =~= a + "..."@ + spaces(0));
    if cursor {
        let padded = pad_spec(segs, width, Tone::Text, true);
        if width - crate::layout::segs_cols(segs) > 0 {
            let k = (width - crate::layout::segs_cols(segs)) as nat;
            assert(padded.drop_last() =~= segs);
            assert(segs_text(padded) =~= a + "..."@ + spaces(k));
        } else {
            assert(segs_text(padded) =~= a + "..."@ + spaces(0));
        }
    }
}

} // verus!
