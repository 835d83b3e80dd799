//! The modal boxes drawn over the list: the confirmation asked before
//! clearing, and the paginated key-binding help.
use vstd::prelude::*;

use crate::layout::{half_gap, push_seg, segs_view, Row, RowView, Seg, SegView, Tone};
use crate::text::{push_all, repeat_space, spaces, views};
use crate::wrap::{display_width, str_columns, word_wrap_spec, word_wrap_to_cols};

verus! {

/// A box of `width` by `height` cells at (`x`, `y`), its border included,
/// and the rows drawn inside the border.
pub struct Popup {
    pub x: u16,
    pub y: u16,
    pub width: u16,
    pub height: u16,
    pub rows: Vec<Row>,
}

/// A box as plain values: position, size and rows.
pub type PopupView = (int, int, int, int, Seq<RowView>);

impl View for Popup {
    type V = PopupView;

    open spec fn view(&self) -> PopupView {
        (
            self.x as int,
            self.y as int,
            self.width as int,
            self.height as int,
            crate::layout::rows_view(self.rows@),
        )
    }
}

/// The smaller of two integers.
pub open spec fn min_int(a: int, b: int) -> int {
    if a < b {
        a
    } else {
        b
    }
}

/// The widest of `lines`, 0 when there are none.
pub open spec fn max_width(lines: Seq<Seq<char>>) -> int
    decreases lines.len(),
{
    if lines.len() == 0 {
        0
    } else {
        let m = max_width(lines.drop_last());
        let w = str_columns(lines.last()) as int;
        if w > m {
            w
        } else {
            m
        }
    }
}

/// The widest of `lines`.
fn max_line_width(lines: &Vec<String>) -> (r: usize)
    ensures
        r == max_width(views(lines@)),
{
    let mut m: usize = 0;
    let mut i: usize = 0;
    while i < lines.len()
        invariant
            i <= lines@.len(),
            m == max_width(views(lines@).take(i as int)),
        decreases lines.len() - i,
    {
        let w = display_width(lines[i].as_str());
        proof {
            assert(views(lines@).take(i + 1).drop_last() =~= views(lines@).take(i as int));
        }
        if w > m {
            m = w;
        }
        i += 1;
    }
    proof {
        assert(views(lines@).take(i as int) =~= views(lines@));
    }
    m
}

/// Whether each of `lines` fits in `max` columns.
pub open spec fn all_fit(lines: Seq<Seq<char>>, max: int) -> bool {
    forall|i: int| 0 <= i < lines.len() ==> str_columns(#[trigger] lines[i]) <= max
}

fn all_lines_fit(lines: &Vec<String>, max: usize) -> (r: bool)
    ensures
        r == all_fit(views(lines@), max as int),
{
    let mut i: usize = 0;
    while i < lines.len()
        invariant
            i <= lines@.len(),
            forall|j: int| 0 <= j < i ==> str_columns(#[trigger] views(lines@)[j]) <= max,
        decreases lines.len() - i,
    {
        let w = display_width(lines[i].as_str());
        proof {
            assert(views(lines@)[i as int] == lines@[i as int]@);
        }
        if w > max {
            return false;
        }
        i += 1;
    }
    true
}

/// Each line centred in `inner_w` columns, as a row of its own.
pub open spec fn centred_rows(lines: Seq<Seq<char>>, inner_w: int) -> Seq<RowView> {
    lines.map_values(
        |l: Seq<char>|
            (
                seq![
                    (spaces(half_gap(inner_w, str_columns(l) as int) as nat) + l, Tone::Text, false),
                ],
                Tone::Base,
                false,
            ),
    )
}

/// The rows of the first `count` of `lines`, each centred in `inner_w`
/// columns.
fn centre_lines(lines: &Vec<String>, count: usize, inner_w: usize) -> (r: Vec<Row>)
    requires
        count <= lines@.len(),
    ensures
        crate::layout::rows_view(r@) == centred_rows(views(lines@).take(count as int), inner_w as int),
{
    let mut rows: Vec<Row> = Vec::new();
    let mut i: usize = 0;
    let ghost ls = views(lines@);
    while i < count
        invariant
            i <= count <= lines@.len(),
            ls == views(lines@),
            crate::layout::rows_view(rows@) == centred_rows(ls.take(i as int), inner_w as int),
        decreases count - i,
    {
        let l = lines[i].as_str();
        let w = display_width(l);
        let pad = inner_w.saturating_sub(w) / 2;
        let mut text = repeat_space(pad);
        push_all(&mut text, l);
        let mut segs: Vec<Seg> = Vec::new();
        proof {
            assert(segs_view(segs@) =~= Seq::<SegView>::empty());
        }
        let ghost tv = text@;
        push_seg(&mut segs, text, Tone::Text, false);
        proof {
            assert(pad == half_gap(inner_w as int, str_columns(l@) as int));
            assert(tv == spaces(half_gap(inner_w as int, str_columns(l@) as int) as nat) + l@);
            assert(segs_view(segs@) =~= seq![(tv, Tone::Text, false)]);
        }
        let ghost before = rows@;
        rows.push(Row { segs, tone: Tone::Base, lit: false });
        proof {
            assert(ls[i as int] == l@);
            assert(ls.take(i + 1) =~= ls.take(i as int).push(l@));
            assert(crate::layout::rows_view(rows@) =~= crate::layout::rows_view(before).push(
                rows@[i as int]@,
            ));
            assert(centred_rows(ls.take(i + 1), inner_w as int) =~= centred_rows(
                ls.take(i as int),
                inner_w as int,
            ).push(rows@[i as int]@));
        }
        i += 1;
    }
    rows
}

// ── Confirmation ──────────────────────────────────────────────────────────────

/// The two answers on one line.
pub open spec fn buttons_combined() -> Seq<char> {
    "[y/Enter] Yes  [n/Esc] No"@
}

/// The lines of a confirmation box whose inside is at most `max_inner`
/// columns wide, in the most compact arrangement that fits: the question
/// and the answers on one line; else the question word-wrapped, then the
/// answers on one line; else the question word-wrapped, a blank line, and
/// each answer on its own line.
pub open spec fn confirm_lines_spec(message: Seq<char>, max_inner: int) -> Seq<Seq<char>> {
    let single = message + " — "@ + buttons_combined();
    if str_columns(single) <= max_inner {
        seq![single]
    } else {
        let with_combined = word_wrap_spec(message, max_inner).push(buttons_combined());
        if all_fit(with_combined, max_inner) {
            with_combined
        } else {
            word_wrap_spec(message, max_inner) + seq![""@, "[y/Enter] Yes"@, "[n/Esc] No"@]
        }
    }
}

/// The box asking `message` on an area of `aw` by `ah` cells at
/// (`ax`, `ay`): just wide enough for its longest line and tall enough for
/// all of them (both within the area), centred; no box when the area
/// leaves it less than two cells either way.
pub open spec fn confirm_popup_spec(ax: int, ay: int, aw: int, ah: int, message: Seq<char>) -> Option<
    PopupView,
> {
    let lines = confirm_lines_spec(message, if aw >= 2 {
        aw - 2
    } else {
        0
    });
    let pw = min_int(max_width(lines) + 2, aw);
    let ph = min_int(lines.len() + 2int, ah);
    if pw < 2 || ph < 2 {
        None
    } else {
        Some(
            (
                ax + half_gap(aw, pw),
                ay + half_gap(ah, ph),
                pw,
                ph,
                centred_rows(lines.take(ph - 2), pw - 2),
            ),
        )
    }
}

fn confirm_lines(message: &str, max_inner: usize) -> (r: Vec<String>)
    ensures
        views(r@) == confirm_lines_spec(message@, max_inner as int),
{
    let mut single = message.to_owned();
    push_all(&mut single, " — ");
    push_all(&mut single, "[y/Enter] Yes  [n/Esc] No");
    if display_width(single.as_str()) <= max_inner {
        let mut r: Vec<String> = Vec::new();
        let ghost sv = single@;
        r.push(single);
        proof {
            assert(views(r@) =~= seq![sv]);
        }
        return r;
    }
    let mut with_combined = word_wrap_to_cols(message, max_inner);
    let ghost wrapped = views(with_combined@);
    with_combined.push("[y/Enter] Yes  [n/Esc] No".to_owned());
    proof {
        assert(views(with_combined@) =~= wrapped.push(buttons_combined()));
    }
    if all_lines_fit(&with_combined, max_inner) {
        return with_combined;
    }
    let mut v = word_wrap_to_cols(message, max_inner);
    v.push("".to_owned());
    v.push("[y/Enter] Yes".to_owned());
    v.push("[n/Esc] No".to_owned());
    proof {
        assert(views(v@) =~= wrapped + seq![""@, "[y/Enter] Yes"@, "[n/Esc] No"@]);
    }
    v
}

/// The confirmation box asking `message` over the area of `width` by
/// `height` cells at (`x`, `y`).
pub fn confirm_popup(x: u16, y: u16, width: u16, height: u16, message: &str) -> (r: Option<Popup>)
    requires
        x + width <= u16::MAX,
        y + height <= u16::MAX,
    ensures
        match r {
            Some(p) => confirm_popup_spec(
                x as int,
                y as int,
                width as int,
                height as int,
                message@,
            ) == Some(p@),
            None => confirm_popup_spec(
                x as int,
                y as int,
                width as int,
                height as int,
                message@,
            ) is None,
        },
{
    let max_inner_w = (width as usize).saturating_sub(2);
    let lines = confirm_lines(message, max_inner_w);
    let max_line_w = max_line_width(&lines);
    let want_w = max_line_w.saturating_add(2);
    let popup_w: usize = if want_w < width as usize {
        want_w
    } else {
        width as usize
    };
    let want_h = lines.len().saturating_add(2);
    let popup_h: usize = if want_h < height as usize {
        want_h
    } else {
        height as usize
    };
    if popup_w < 2 || popup_h < 2 {
        return None;
    }
    let pw = popup_w as u16;
    let ph = popup_h as u16;
    let px = x + width.saturating_sub(pw) / 2;
    let py = y + height.saturating_sub(ph) / 2;
    let rows = centre_lines(&lines, popup_h - 2, popup_w - 2);
    Some(Popup { x: px, y: py, width: pw, height: ph, rows })
}

// ── Key-binding help ──────────────────────────────────────────────────────────

/// The title on the help box's border.
pub open spec fn help_title() -> Seq<char> {
    " Keybindings "@
}

/// The title on the help box's border.
pub fn help_box_title() -> (r: &'static str)
    ensures
        r@ == help_title(),
{
    " Keybindings "
}

/// The narrowest help box, so that the title is not clipped by the corners.
pub const TITLE_MIN_W: usize = 15;

/// The help entries, (key, description); an empty pair is a blank line.
#[verifier::opaque]
pub open spec fn help_entries() -> Seq<(Seq<char>, Seq<char>)> {
    seq![
        ("r"@, "Refresh"@),
        ("c"@, "Clear all"@),
        ("x"@, "Delete current"@),
        ("q"@, "Quit"@),
        ("g"@, "Go to start"@),
        ("G"@, "Go to end"@),
        ("/"@, "Filter"@),
        ("s"@, "Toggle select"@),
        ("S"@, "Delete selected"@),
        ("?"@, "Show keybinds"@),
        ("F1"@, "Toggle hint bar"@),
        ("↑ / k"@, "Move up"@),
        ("↓ / j"@, "Move down"@),
        ("← / h"@, "Previous page"@),
        ("→ / l"@, "Next page"@),
        ("PgUp"@, "Previous page"@),
        ("PgDn"@, "Next page"@),
        (""@, ""@),
        ("Esc"@, "Close help"@),
    ]
}

/// The views of (key, description) pairs.
pub open spec fn pairs_view(v: Seq<(&str, &str)>) -> Seq<(Seq<char>, Seq<char>)> {
    v.map_values(|p: (&str, &str)| (p.0@, p.1@))
}

fn help_entries_exec() -> (r: Vec<(&'static str, &'static str)>)
    ensures
        pairs_view(r@) == help_entries(),
{
    let mut v: Vec<(&'static str, &'static str)> = Vec::new();
    v.push(("r", "Refresh"));
    v.push(("c", "Clear all"));
    v.push(("x", "Delete current"));
    v.push(("q", "Quit"));
    v.push(("g", "Go to start"));
    v.push(("G", "Go to end"));
    v.push(("/", "Filter"));
    v.push(("s", "Toggle select"));
    v.push(("S", "Delete selected"));
    v.push(("?", "Show keybinds"));
    v.push(("F1", "Toggle hint bar"));
    v.push(("↑ / k", "Move up"));
    v.push(("↓ / j", "Move down"));
    v.push(("← / h", "Previous page"));
    v.push(("→ / l", "Next page"));
    v.push(("PgUp", "Previous page"));
    v.push(("PgDn", "Next page"));
    v.push(("", ""));
    v.push(("Esc", "Close help"));
    proof {
        reveal(help_entries);
        assert(pairs_view(v@) =~= help_entries());
    }
    v
}

/// A display row of the help: key, description, and whether it continues
/// the description of the row above.
pub type HelpRow = (Seq<char>, Seq<char>, bool);

/// `v` capped at `usize::MAX`, as saturating arithmetic gives it.
pub open spec fn sat(v: int) -> int {
    if v > usize::MAX {
        usize::MAX as int
    } else {
        v
    }
}

/// `a - b`, or 0 when `b` is larger.
pub open spec fn sat_sub(a: int, b: int) -> int {
    if a > b {
        a - b
    } else {
        0
    }
}

/// A wrapped description line cut to `avail` columns when a single word
/// is still too wide, with `...` when there is room for it.
pub open spec fn fit_desc(line: Seq<char>, avail: int) -> Seq<char> {
    if str_columns(line) > avail {
        if avail >= 4 {
            crate::wrap::truncate_spec(line, avail - 3) + "..."@
        } else {
            crate::wrap::truncate_spec(line, avail)
        }
    } else {
        line
    }
}

/// The display rows of one entry when the description has `avail`
/// columns: a blank line, the key alone, the key and description, or the
/// key and the description word-wrapped over several rows.
pub open spec fn entry_rows(key: Seq<char>, desc: Seq<char>, avail: int) -> Seq<HelpRow> {
    if key.len() == 0 && desc.len() == 0 {
        seq![(seq![], seq![], false)]
    } else if desc.len() == 0 || avail == 0 {
        seq![(key, seq![], false)]
    } else if str_columns(desc) <= avail {
        seq![(key, desc, false)]
    } else {
        let lines = word_wrap_spec(desc, avail);
        Seq::new(
            lines.len(),
            |i: int|
                (if i == 0 {
                    key
                } else {
                    seq![]
                }, fit_desc(lines[i], avail), i > 0),
        )
    }
}

/// The display rows of all entries.
pub open spec fn help_rows(entries: Seq<(Seq<char>, Seq<char>)>, avail: int) -> Seq<HelpRow>
    decreases entries.len(),
{
    if entries.len() == 0 {
        seq![]
    } else {
        help_rows(entries.drop_last(), avail) + entry_rows(
            entries.last().0,
            entries.last().1,
            avail,
        )
    }
}

/// Whether a display row is a blank separator.
pub open spec fn is_blank_row(r: HelpRow) -> bool {
    !r.2 && r.0.len() == 0 && r.1.len() == 0
}

/// The columns a display row needs.
pub open spec fn row_width(r: HelpRow, overhead: int) -> int {
    if is_blank_row(r) {
        0
    } else {
        sat(overhead + str_columns(r.1))
    }
}

/// The widest display row.
pub open spec fn max_row_width(rows: Seq<HelpRow>, overhead: int) -> int
    decreases rows.len(),
{
    if rows.len() == 0 {
        0
    } else {
        let m = max_row_width(rows.drop_last(), overhead);
        let w = row_width(rows.last(), overhead);
        if w > m {
            w
        } else {
            m
        }
    }
}

/// A display row drawn: blank; indented to the description column; or a
/// space, the key in the accent colour padded to the key column, and the
/// description.
pub open spec fn help_line(r: HelpRow, key_col: int, overhead: int) -> RowView {
    if is_blank_row(r) {
        (seq![(seq![], Tone::Text, false)], Tone::Base, false)
    } else if r.2 {
        (
            seq![(spaces(overhead as nat), Tone::Text, false), (r.1, Tone::Text, false)],
            Tone::Base,
            false,
        )
    } else {
        let key_pad = sat_sub(key_col, str_columns(r.0) as int);
        (
            seq![
                (" "@, Tone::Text, false),
                (r.0, Tone::Accent, false),
                (spaces(sat(key_pad + 1) as nat), Tone::Text, false),
                (r.1, Tone::Text, false),
            ],
            Tone::Base,
            false,
        )
    }
}

/// The pagination footer: arrows where there are pages before or after,
/// and `page/pages pages` centred between them.
pub open spec fn footer_line(page: int, pages: int, inner_w: int) -> RowView {
    let page_str = crate::text::nat_digits((page + 1) as nat) + "/"@ + crate::text::nat_digits(
        pages as nat,
    ) + " pages"@;
    let total_space = sat_sub(inner_w, sat(2 + str_columns(page_str)));
    let pad_l = total_space / 2;
    let pad_r = total_space - pad_l;
    (
        seq![
            (if page > 0 {
                "←"@
            } else {
                " "@
            }, Tone::Accent, false),
            (spaces(pad_l as nat), Tone::Faint, false),
            (page_str, Tone::Faint, false),
            (spaces(pad_r as nat), Tone::Faint, false),
            (if page + 1 < pages {
                "→"@
            } else {
                " "@
            }, Tone::Accent, false),
        ],
        Tone::Base,
        false,
    )
}

/// The widest key.
pub open spec fn key_column() -> int {
    max_width(help_entries().map_values(|e: (Seq<char>, Seq<char>)| e.0))
}

/// The columns before a description: a space, the key column, a space.
pub open spec fn help_overhead() -> int {
    sat(key_column() + 2)
}

/// The columns left for descriptions on a terminal `w` wide.
pub open spec fn desc_avail(w: int) -> int {
    sat_sub(sat_sub(w, 2), help_overhead())
}

/// The display rows on a terminal `w` wide.
pub open spec fn help_rows_for(w: int) -> Seq<HelpRow> {
    help_rows(help_entries(), desc_avail(w))
}

/// The rows the help box can hold inside its border on a terminal `h`
/// high (at least one).
pub open spec fn max_inner_h(h: int) -> int {
    if h > 2 {
        h - 2
    } else {
        1
    }
}

/// Whether the help rows need more than one page.
pub open spec fn help_paged(total: int, h: int) -> bool {
    total > max_inner_h(h)
}

/// The rows per page: all that fit, or one fewer when paged, keeping a
/// row for the footer, but at least one.
pub open spec fn rows_per_page(total: int, h: int) -> int {
    if !help_paged(total, h) {
        max_inner_h(h)
    } else if max_inner_h(h) > 1 {
        max_inner_h(h) - 1
    } else {
        1
    }
}

/// The number of help pages for `total` rows on a terminal `h` high.
pub open spec fn help_pages(total: int, h: int) -> int {
    let rpp = rows_per_page(total, h);
    if !help_paged(total, h) {
        1
    } else {
        total / rpp + if total % rpp != 0 {
            1int
        } else {
            0
        }
    }
}

/// The help page shown: the one asked for, or the last one.
pub open spec fn clamp_page(page: int, pages: int) -> int {
    if page >= pages {
        pages - 1
    } else {
        page
    }
}

/// The help box on an area of `w` by `h` cells at (`x`, `y`) showing page
/// `help_page`: the number of pages, the page shown, and the box (none
/// when the area leaves it less than two cells either way).
pub open spec fn help_popup_spec(x: int, y: int, w: int, h: int, help_page: int) -> (
    int,
    int,
    Option<PopupView>,
) {
    let rows = help_rows_for(w);
    let overhead = help_overhead();
    let total = rows.len() as int;
    let pw0 = sat(max_row_width(rows, overhead) + 2);
    let pw = min_int(
        if pw0 > TITLE_MIN_W {
            pw0
        } else {
            TITLE_MIN_W as int
        },
        w,
    );
    let inner_w = sat_sub(pw, 2);
    let rpp = rows_per_page(total, h);
    let pages = help_pages(total, h);
    let footer = help_paged(total, h);
    let page = clamp_page(help_page, pages);
    let start = page * rpp;
    let end = min_int(start + rpp, total);
    let inner_h = end - start + if footer {
        1int
    } else {
        0
    };
    let ph = min_int(inner_h + 2, h);
    let lines = rows.subrange(start, end).map_values(
        |r: HelpRow| help_line(r, key_column(), overhead),
    ) + if footer {
        seq![footer_line(page, pages, inner_w)]
    } else {
        seq![]
    };
    (
        pages,
        page,
        if pw < 2 || ph < 2 {
            None
        } else {
            Some((x + half_gap(w, pw), y + half_gap(h, ph), pw, ph, lines))
        },
    )
}

/// The views of display rows.
pub open spec fn hrows_view(v: Seq<(String, String, bool)>) -> Seq<HelpRow> {
    v.map_values(|r: (String, String, bool)| (r.0@, r.1@, r.2))
}

fn push_hrow(out: &mut Vec<(String, String, bool)>, key: String, desc: String, cont: bool)
    ensures
        hrows_view(final(out)@) == hrows_view(old(out)@).push((key@, desc@, cont)),
{
    let ghost before = out@;
    let ghost kv = key@;
    let ghost dv = desc@;
    out.push((key, desc, cont));
    proof {
        assert(hrows_view(out@) =~= hrows_view(before).push((kv, dv, cont)));
    }
}

fn fit_desc_exec(line: &str, avail: usize) -> (r: String)
    ensures
        r@ == fit_desc(line@, avail as int),
{
    if display_width(line) > avail {
        if avail >= 4 {
            let mut t = crate::wrap::truncate_to_cols(line, avail - 3);
            push_all(&mut t, "...");
            t
        } else {
            crate::wrap::truncate_to_cols(line, avail)
        }
    } else {
        line.to_owned()
    }
}

fn push_entry_rows(out: &mut Vec<(String, String, bool)>, key: &str, desc: &str, avail: usize)
    ensures
        hrows_view(final(out)@) == hrows_view(old(out)@) + entry_rows(key@, desc@, avail as int),
{
    let ghost before = hrows_view(out@);
    if key.is_empty() && desc.is_empty() {
        push_hrow(out, String::new(), String::new(), false);
        proof {
            assert(hrows_view(out@) =~= before + entry_rows(key@, desc@, avail as int));
        }
    } else if desc.is_empty() || avail == 0 {
        push_hrow(out, key.to_owned(), String::new(), false);
        proof {
            assert(hrows_view(out@) =~= before + entry_rows(key@, desc@, avail as int));
        }
    } else if display_width(desc) <= avail {
        push_hrow(out, key.to_owned(), desc.to_owned(), false);
        proof {
            assert(hrows_view(out@) =~= before + entry_rows(key@, desc@, avail as int));
        }
    } else {
        let wrapped = word_wrap_to_cols(desc, avail);
        let ghost lines = word_wrap_spec(desc@, avail as int);
        let ghost want = entry_rows(key@, desc@, avail as int);
        let mut i: usize = 0;
        while i < wrapped.len()
            invariant
                i <= wrapped@.len(),
                views(wrapped@) == lines,
                want.len() == lines.len(),
                want == Seq::new(
                    lines.len(),
                    |i: int|
                        (if i == 0 {
                            key@
                        } else {
                            seq![]
                        }, fit_desc(lines[i], avail as int), i > 0),
                ),
                hrows_view(out@) == before + want.take(i as int),
            decreases wrapped.len() - i,
        {
            let line = fit_desc_exec(wrapped[i].as_str(), avail);
            let k = if i == 0 {
                key.to_owned()
            } else {
                String::new()
            };
            proof {
                assert(views(wrapped@)[i as int] == wrapped@[i as int]@);
            }
            push_hrow(out, k, line, i > 0);
            proof {
                assert(want.take(i + 1) =~= want.take(i as int).push(want[i as int]));
            }
            i += 1;
        }
        proof {
            assert(want.take(i as int) =~= want);
        }
    }
}

fn build_help_rows(entries: &Vec<(&'static str, &'static str)>, avail: usize) -> (r: Vec<
    (String, String, bool),
>)
    ensures
        hrows_view(r@) == help_rows(pairs_view(entries@), avail as int),
{
    let mut out: Vec<(String, String, bool)> = Vec::new();
    let ghost pv = pairs_view(entries@);
    let mut i: usize = 0;
    proof {
        assert(hrows_view(out@) =~= help_rows(pv.take(0), avail as int));
    }
    while i < entries.len()
        invariant
            i <= entries@.len(),
            pv == pairs_view(entries@),
            hrows_view(out@) == help_rows(pv.take(i as int), avail as int),
        decreases entries.len() - i,
    {
        let (k, d) = entries[i];
        push_entry_rows(&mut out, k, d, avail);
        proof {
            assert(pv.take(i + 1).drop_last() =~= pv.take(i as int));
            assert(pv[i as int] == (k@, d@));
        }
        i += 1;
    }
    proof {
        assert(pv.take(i as int) =~= pv);
    }
    out
}

fn key_column_exec(entries: &Vec<(&'static str, &'static str)>) -> (r: usize)
    ensures
        r == max_width(pairs_view(entries@).map_values(|e: (Seq<char>, Seq<char>)| e.0)),
{
    let ghost keys = pairs_view(entries@).map_values(|e: (Seq<char>, Seq<char>)| e.0);
    let mut m: usize = 0;
    let mut i: usize = 0;
    while i < entries.len()
        invariant
            i <= entries@.len(),
            keys == pairs_view(entries@).map_values(|e: (Seq<char>, Seq<char>)| e.0),
            m == max_width(keys.take(i as int)),
        decreases entries.len() - i,
    {
        let w = display_width(entries[i].0);
        proof {
            assert(keys.take(i + 1).drop_last() =~= keys.take(i as int));
            assert(keys[i as int] == entries@[i as int].0@);
        }
        if w > m {
            m = w;
        }
        i += 1;
    }
    proof {
        assert(keys.take(i as int) =~= keys);
    }
    m
}

fn max_row_width_exec(rows: &Vec<(String, String, bool)>, overhead: usize) -> (r: usize)
    ensures
        r == max_row_width(hrows_view(rows@), overhead as int),
{
    let ghost hv = hrows_view(rows@);
    let mut m: usize = 0;
    let mut i: usize = 0;
    while i < rows.len()
        invariant
            i <= rows@.len(),
            hv == hrows_view(rows@),
            m == max_row_width(hv.take(i as int), overhead as int),
        decreases rows.len() - i,
    {
        let r = &rows[i];
        let w = if !r.2 && r.0.as_str().is_empty() && r.1.as_str().is_empty() {
            0
        } else {
            overhead.saturating_add(display_width(r.1.as_str()))
        };
        proof {
            assert(hv.take(i + 1).drop_last() =~= hv.take(i as int));
            assert(hv[i as int] == (r.0@, r.1@, r.2));
        }
        if w > m {
            m = w;
        }
        i += 1;
    }
    proof {
        assert(hv.take(i as int) =~= hv);
    }
    m
}

fn help_line_exec(r: &(String, String, bool), key_col: usize, overhead: usize) -> (out: Row)
    ensures
        out@ == help_line((r.0@, r.1@, r.2), key_col as int, overhead as int),
{
    let mut segs: Vec<Seg> = Vec::new();
    proof {
        assert(segs_view(segs@) =~= Seq::<SegView>::empty());
    }
    if !r.2 && r.0.as_str().is_empty() && r.1.as_str().is_empty() {
        push_seg(&mut segs, String::new(), Tone::Text, false);
        proof {
            assert(segs_view(segs@) =~= seq![(Seq::<char>::empty(), Tone::Text, false)]);
        }
    } else if r.2 {
        push_seg(&mut segs, repeat_space(overhead), Tone::Text, false);
        push_seg(&mut segs, r.1.clone(), Tone::Text, false);
        proof {
            assert(segs_view(segs@) =~= seq![
                (spaces(overhead as nat), Tone::Text, false),
                (r.1@, Tone::Text, false),
            ]);
        }
    } else {
        let key_pad = key_col.saturating_sub(display_width(r.0.as_str()));
        push_seg(&mut segs, " ".to_owned(), Tone::Text, false);
        push_seg(&mut segs, r.0.clone(), Tone::Accent, false);
        push_seg(&mut segs, repeat_space(key_pad.saturating_add(1)), Tone::Text, false);
        push_seg(&mut segs, r.1.clone(), Tone::Text, false);
        proof {
            assert(segs_view(segs@) =~= seq![
                (" "@, Tone::Text, false),
                (r.0@, Tone::Accent, false),
                (spaces(sat(sat_sub(key_col as int, str_columns(r.0@) as int) + 1) as nat), Tone::Text, false),
                (r.1@, Tone::Text, false),
            ]);
        }
    }
    Row { segs, tone: Tone::Base, lit: false }
}

fn footer_line_exec(page: usize, pages: usize, inner_w: usize) -> (out: Row)
    requires
        page < pages,
    ensures
        out@ == footer_line(page as int, pages as int, inner_w as int),
{
    let mut page_str = String::new();
    crate::text::push_decimal(&mut page_str, (page + 1) as u64);
    push_all(&mut page_str, "/");
    crate::text::push_decimal(&mut page_str, pages as u64);
    push_all(&mut page_str, " pages");
    let ghost ps = crate::text::nat_digits((page + 1) as nat) + "/"@ + crate::text::nat_digits(
        pages as nat,
    ) + " pages"@;
    proof {
        assert(page_str@ =~= ps);
    }
    let page_str_w = display_width(page_str.as_str());
    let total_space = inner_w.saturating_sub(2usize.saturating_add(page_str_w));
    let pad_l = total_space / 2;
    let pad_r = total_space - pad_l;
    let left = if page > 0 {
        "←"
    } else {
        " "
    };
    let right = if page + 1 < pages {
        "→"
    } else {
        " "
    };
    let mut segs: Vec<Seg> = Vec::new();
    proof {
        assert(segs_view(segs@) =~= Seq::<SegView>::empty());
    }
    push_seg(&mut segs, left.to_owned(), Tone::Accent, false);
    push_seg(&mut segs, repeat_space(pad_l), Tone::Faint, false);
    push_seg(&mut segs, page_str, Tone::Faint, false);
    push_seg(&mut segs, repeat_space(pad_r), Tone::Faint, false);
    push_seg(&mut segs, right.to_owned(), Tone::Accent, false);
    proof {
        assert(segs_view(segs@) =~= footer_line(page as int, pages as int, inner_w as int).0);
    }
    Row { segs, tone: Tone::Base, lit: false }
}

proof fn lemma_page_start(total: int, rpp: int, page: int)
    requires
        rpp >= 1,
        total >= 1,
        0 <= page,
        page < total / rpp + if total % rpp != 0 {
            1int
        } else {
            0
        },
    ensures
        page * rpp < total,
{
    let q = total / rpp;
    let r = total % rpp;
    assert(total == q * rpp + r && 0 <= r < rpp) by (nonlinear_arith)
        requires
            rpp >= 1,
            q == total / rpp,
            r == total % rpp,
    ;
    if r == 0 {
        assert(page * rpp <= (q - 1) * rpp) by (nonlinear_arith)
            requires
                page <= q - 1,
                rpp >= 1,
        ;
        assert((q - 1) * rpp == q * rpp - rpp) by (nonlinear_arith);
    } else {
        assert(page * rpp <= q * rpp) by (nonlinear_arith)
            requires
                page <= q,
                rpp >= 1,
        ;
    }
}

/// The pagination of `total` rows on a terminal `height` high with page
/// `help_page` asked for: rows per page, pages, the page shown, the range
/// of its rows, and whether a footer is needed.
fn paginate(total: usize, height: u16, help_page: usize) -> (r: (
    usize,
    usize,
    usize,
    usize,
    usize,
    bool,
))
    ensures
        r.0 == rows_per_page(total as int, height as int),
        r.1 == help_pages(total as int, height as int),
        r.2 == clamp_page(help_page as int, r.1 as int),
        r.3 == r.2 * r.0,
        r.4 == min_int(r.3 + r.0, total as int),
        r.5 == help_paged(total as int, height as int),
        r.3 <= r.4 <= total,
        r.4 - r.3 <= r.0 <= max_inner_h(height as int),
        r.2 < r.1,
{
    let mih: usize = if height > 2 {
        (height - 2) as usize
    } else {
        1
    };
    let paged = total > mih;
    let rpp: usize = if !paged {
        mih
    } else if mih > 1 {
        mih - 1
    } else {
        1
    };
    let rem = total % rpp;
    proof {
        if rem != 0 {
            assert(rpp >= 2);
            assert(total / rpp <= total / 2) by (nonlinear_arith)
                requires
                    rpp >= 2,
            ;
        }
    }
    let pages: usize = if !paged {
        1
    } else {
        total / rpp + if rem != 0 {
            1
        } else {
            0
        }
    };
    proof {
        if paged {
            assert(total / rpp >= 0) by (nonlinear_arith)
                requires
                    rpp >= 1,
            ;
            assert(pages >= 1) by (nonlinear_arith)
                requires
                    rpp >= 1,
                    total >= 1,
                    pages == total / rpp + if total % rpp != 0 {
                        1int
                    } else {
                        0
                    },
            ;
        }
    }
    let page = if help_page >= pages {
        pages - 1
    } else {
        help_page
    };
    proof {
        if paged {
            assert(page < total / rpp + if total % rpp != 0 {
                1int
            } else {
                0
            });
            lemma_page_start(total as int, rpp as int, page as int);
            assert(page * rpp < total);
        } else {
            assert(page == 0);
        }
    }
    let start = page * rpp;
    let end = if rpp <= total - start {
        start + rpp
    } else {
        total
    };
    (rpp, pages, page, start, end, paged)
}

/// The rows of display rows `start..end` drawn.
fn page_lines(
    rows: &Vec<(String, String, bool)>,
    start: usize,
    end: usize,
    key_col: usize,
    overhead: usize,
) -> (r: Vec<Row>)
    requires
        start <= end <= rows@.len(),
    ensures
        crate::layout::rows_view(r@) == hrows_view(rows@).subrange(start as int, end as int).map_values(
            |r: HelpRow| help_line(r, key_col as int, overhead as int),
        ),
{
    let ghost hv = hrows_view(rows@);
    let mut lines: Vec<Row> = Vec::new();
    let mut j = start;
    while j < end
        invariant
            start <= j <= end <= rows@.len(),
            hv == hrows_view(rows@),
            crate::layout::rows_view(lines@) == hv.subrange(start as int, j as int).map_values(
                |r: HelpRow| help_line(r, key_col as int, overhead as int),
            ),
        decreases end - j,
    {
        let line = help_line_exec(&rows[j], key_col, overhead);
        let ghost lv = line@;
        let ghost before = lines@;
        lines.push(line);
        proof {
            assert(hv[j as int] == (rows@[j as int].0@, rows@[j as int].1@, rows@[j as int].2));
            assert(crate::layout::rows_view(lines@) =~= crate::layout::rows_view(before).push(lv));
            assert(hv.subrange(start as int, j + 1).map_values(
                |r: HelpRow| help_line(r, key_col as int, overhead as int),
            ) =~= hv.subrange(start as int, j as int).map_values(
                |r: HelpRow| help_line(r, key_col as int, overhead as int),
            ).push(help_line(hv[j as int], key_col as int, overhead as int)));
        }
        j += 1;
    }
    lines
}

/// The help box: how many pages the help takes, the page shown, and the
/// box itself (none when the area is too small for one).
pub struct HelpLayout {
    pub total_pages: usize,
    pub page: usize,
    pub popup: Option<Popup>,
}

/// The help box on an area of `width` by `height` cells at (`x`, `y`),
/// showing page `help_page` or, when there are fewer pages, the last one.
#[verifier::spinoff_prover]
#[verifier::rlimit(40)]
pub fn help_layout(x: u16, y: u16, width: u16, height: u16, help_page: usize) -> (r: HelpLayout)
    requires
        x + width <= u16::MAX,
        y + height <= u16::MAX,
    ensures
        ({
            let sp = help_popup_spec(x as int, y as int, width as int, height as int, help_page as int);
            &&& r.total_pages == sp.0
            &&& r.page == sp.1
            &&& match r.popup {
                Some(p) => sp.2 == Some(p@),
                None => sp.2 is None,
            }
        }),
{
    let entries = help_entries_exec();
    let key_col = key_column_exec(&entries);
    let overhead = key_col.saturating_add(2);
    let max_inner_w = (width as usize).saturating_sub(2);
    let avail = max_inner_w.saturating_sub(overhead);
    let rows = build_help_rows(&entries, avail);
    let ghost hv = hrows_view(rows@);
    proof {
        assert(hv == help_rows_for(width as int));
    }
    let max_row_w = max_row_width_exec(&rows, overhead);
    let pw0 = max_row_w.saturating_add(2);
    let pw1 = if pw0 > TITLE_MIN_W {
        pw0
    } else {
        TITLE_MIN_W
    };
    let popup_w: usize = if pw1 < width as usize {
        pw1
    } else {
        width as usize
    };
    let inner_w = popup_w.saturating_sub(2);
    let (rpp, pages, page, start, end, paged) = paginate(rows.len(), height, help_page);
    let inner_h = end - start + if paged {
        1
    } else {
        0
    };
    let want_h = inner_h + 2;
    let popup_h: usize = if want_h < height as usize {
        want_h
    } else {
        height as usize
    };
    if popup_w < 2 || popup_h < 2 {
        return HelpLayout { total_pages: pages, page, popup: None };
    }
    let mut lines = page_lines(&rows, start, end, key_col, overhead);
    let ghost body = crate::layout::rows_view(lines@);
    if paged {
        let f = footer_line_exec(page, pages, inner_w);
        let ghost fv = f@;
        lines.push(f);
        proof {
            assert(crate::layout::rows_view(lines@) =~= body.push(fv));
        }
    } else {
        proof {
            assert(body + Seq::<RowView>::empty() =~= body);
        }
    }
    let pw = popup_w as u16;
    let ph = popup_h as u16;
    let px = x + width.saturating_sub(pw) / 2;
    let py = y + height.saturating_sub(ph) / 2;
    HelpLayout {
        total_pages: pages,
        page,
        popup: Some(Popup { x: px, y: py, width: pw, height: ph, rows: lines }),
    }
}

} // verus!
