//! What the terminal interface shows, as rows of coloured text: the header,
//! the item count, the filter bar, the key hints, the page dots and the
//! small-terminal message. The screen itself is drawn elsewhere from these.
use vstd::prelude::*;

use crate::app::Mode;
use crate::text::{nat_digits, push_all, push_decimal, repeat_space, spaces};
use crate::wrap::{display_width, pieces_view, str_columns, wrap_spec, wrap_to_cols};

verus! {

// ── Rows of coloured text ─────────────────────────────────────────────────────

/// How a piece of text is coloured: the background alone, the foreground,
/// the accent, the dimmed foreground, the match colour, or the highlight
/// colour used for separator rules.
#[derive(Debug, Clone, Copy, PartialEq, Eq, Structural)]
pub enum Tone {
    Base,
    Text,
    Accent,
    Faint,
    Match,
    Rule,
}

/// A piece of text in one tone; `lit` puts it on the highlight background.
pub struct Seg {
    pub text: String,
    pub tone: Tone,
    pub lit: bool,
}

/// A row of pieces, with the tone and background of the row itself.
pub struct Row {
    pub segs: Vec<Seg>,
    pub tone: Tone,
    pub lit: bool,
}

/// A piece as plain values.
pub type SegView = (Seq<char>, Tone, bool);

/// A row as plain values.
pub type RowView = (Seq<SegView>, Tone, bool);

impl View for Seg {
    type V = SegView;

    open spec fn view(&self) -> SegView {
        (self.text@, self.tone, self.lit)
    }
}

/// The views of a list of pieces.
pub open spec fn segs_view(v: Seq<Seg>) -> Seq<SegView> {
    v.map_values(|s: Seg| s@)
}

impl View for Row {
    type V = RowView;

    open spec fn view(&self) -> RowView {
        (segs_view(self.segs@), self.tone, self.lit)
    }
}

/// The views of a list of rows.
pub open spec fn rows_view(v: Seq<Row>) -> Seq<RowView> {
    v.map_values(|r: Row| r@)
}

/// Append a piece to a list of pieces.
pub(crate) fn push_seg(segs: &mut Vec<Seg>, text: String, tone: Tone, lit: bool)
    ensures
        segs_view(final(segs)@) == segs_view(old(segs)@).push((text@, tone, lit)),
{
    let ghost before = segs@;
    segs.push(Seg { text, tone, lit });
    proof {
        assert(segs_view(segs@) =~= segs_view(before).push((text@, tone, lit)));
    }
}

/// The columns a list of pieces takes, one after the other (saturating).
pub open spec fn segs_cols(segs: Seq<SegView>) -> usize
    decreases segs.len(),
{
    if segs.len() == 0 {
        0
    } else {
        segs_cols(segs.drop_last()).saturating_add(str_columns(segs.last().0))
    }
}

/// The columns a list of pieces takes.
fn segs_width(segs: &Vec<Seg>) -> (r: usize)
    ensures
        r == segs_cols(segs_view(segs@)),
{
    let mut total: usize = 0;
    let mut i: usize = 0;
    while i < segs.len()
        invariant
            i <= segs@.len(),
            total == segs_cols(segs_view(segs@).take(i as int)),
        decreases segs.len() - i,
    {
        let w = display_width(segs[i].text.as_str());
        proof {
            assert(segs_view(segs@).take(i + 1).drop_last() =~= segs_view(segs@).take(i as int));
        }
        total = total.saturating_add(w);
        i += 1;
    }
    proof {
        assert(segs_view(segs@).take(i as int) =~= segs_view(segs@));
    }
    total
}

/// The pieces padded with spaces in `tone` so that they fill `width`
/// columns (nothing added when they already do).
pub open spec fn pad_spec(segs: Seq<SegView>, width: int, tone: Tone, lit: bool) -> Seq<SegView> {
    let remaining = width - segs_cols(segs);
    if remaining > 0 {
        segs.push((spaces(remaining as nat), tone, lit))
    } else {
        segs
    }
}

/// Append trailing spaces so the pieces fill `width` columns.
pub(crate) fn pad_to_width(segs: &mut Vec<Seg>, width: u16, tone: Tone, lit: bool)
    ensures
        segs_view(final(segs)@) == pad_spec(segs_view(old(segs)@), width as int, tone, lit),
{
    let current = segs_width(segs);
    let remaining = (width as usize).saturating_sub(current);
    if remaining > 0 {
        push_seg(segs, repeat_space(remaining), tone, lit);
    }
}

// ── Header and count bar ──────────────────────────────────────────────────────

/// The title for a terminal `width` columns wide.
pub open spec fn header_title_spec(width: int) -> Seq<char> {
    if width >= 21 {
        " Notification History"@
    } else if width >= 14 {
        " Notifications"@
    } else {
        " Notifs."@
    }
}

/// The header row: the title in the accent colour.
pub fn header_row(width: u16) -> (r: Row)
    ensures
        r@ == (seq![(header_title_spec(width as int), Tone::Accent, false)], Tone::Base, false),
{
    let title = if width >= 21 {
        " Notification History"
    } else if width >= 14 {
        " Notifications"
    } else {
        " Notifs."
    };
    let mut segs: Vec<Seg> = Vec::new();
    push_seg(&mut segs, title.to_owned(), Tone::Accent, false);
    proof {
        assert(segs_view(segs@) =~= seq![(header_title_spec(width as int), Tone::Accent, false)]);
    }
    Row { segs, tone: Tone::Base, lit: false }
}

/// The count label: the number of notifications, or how many of them the
/// filter shows, framed by a rule when there are 21 columns or more.
pub open spec fn count_label_spec(width: int, shown: nat, total: nat, filtering: bool) -> Seq<
    char,
> {
    let line = if width >= 21 {
        "─── "@
    } else {
        ""@
    };
    if filtering {
        seq![' '] + line + nat_digits(shown) + " of "@ + nat_digits(total) + seq![' '] + line
    } else {
        seq![' '] + line + nat_digits(total) + " items "@ + line
    }
}

/// The count bar: its label, dimmed.
pub fn count_row(width: u16, shown: usize, total: usize, filtering: bool) -> (r: Row)
    ensures
        r@ == (
            seq![
                (
                    count_label_spec(width as int, shown as nat, total as nat, filtering),
                    Tone::Faint,
                    false,
                ),
            ],
            Tone::Base,
            false,
        ),
{
    let line = if width >= 21 {
        "─── "
    } else {
        ""
    };
    let mut label = String::new();
    label.push(' ');
    push_all(&mut label, line);
    if filtering {
        push_decimal(&mut label, shown as u64);
        push_all(&mut label, " of ");
        push_decimal(&mut label, total as u64);
        label.push(' ');
        push_all(&mut label, line);
    } else {
        push_decimal(&mut label, total as u64);
        push_all(&mut label, " items ");
        push_all(&mut label, line);
    }
    proof {
        assert(label@ =~= count_label_spec(width as int, shown as nat, total as nat, filtering));
    }
    let mut segs: Vec<Seg> = Vec::new();
    push_seg(&mut segs, label, Tone::Faint, false);
    Row { segs, tone: Tone::Base, lit: false }
}

// ── Filter bar ────────────────────────────────────────────────────────────────

/// The filter bar: a label, the query on the highlight background, and a
/// block cursor.
pub fn filter_row(input: &str) -> (r: Row)
    ensures
        r@ == (
            seq![
                ("Filter: "@, Tone::Accent, false),
                (input@, Tone::Text, true),
                ("█"@, Tone::Accent, false),
            ],
            Tone::Base,
            false,
        ),
{
    let mut segs: Vec<Seg> = Vec::new();
    push_seg(&mut segs, "Filter: ".to_owned(), Tone::Accent, false);
    push_seg(&mut segs, input.to_owned(), Tone::Text, true);
    push_seg(&mut segs, "█".to_owned(), Tone::Accent, false);
    Row { segs, tone: Tone::Base, lit: false }
}

// ── Key hints ─────────────────────────────────────────────────────────────────

/// Columns of the `[?] Help` hint, which is never hidden.
pub const HINT_W_HELP: usize = 8;

/// Columns of the `[r] Refresh` hint.
pub const HINT_W_R: usize = 13;

/// Columns of the `[x] Delete` hint.
pub const HINT_W_X: usize = 12;

/// Columns of the `[c] Clear all` hint.
pub const HINT_W_C: usize = 15;

/// The (key, description) hints for a mode on a terminal `width` columns
/// wide. In normal mode `[c]`, `[x]` and `[r]` are hidden in that order as
/// the terminal narrows.
pub open spec fn hint_pairs_spec(mode: Mode, width: int) -> Seq<(Seq<char>, Seq<char>)> {
    match mode {
        Mode::Normal => {
            let r = if width >= HINT_W_HELP + HINT_W_R {
                seq![("[r]"@, " Refresh  "@)]
            } else {
                seq![]
            };
            let x = if width >= HINT_W_HELP + HINT_W_R + HINT_W_X {
                seq![("[x]"@, " Delete  "@)]
            } else {
                seq![]
            };
            let c = if width >= HINT_W_HELP + HINT_W_R + HINT_W_X + HINT_W_C {
                seq![("[c]"@, " Clear all  "@)]
            } else {
                seq![]
            };
            r + x + c + seq![("[?]"@, " Help"@)]
        },
        Mode::Filter => seq![("[Enter]"@, " Confirm  "@), ("[Esc]"@, " Cancel"@)],
        Mode::Help => seq![("[Esc]"@, " Close"@)],
        _ => seq![],
    }
}

/// Each hint as its key in the accent colour and its description.
pub open spec fn hint_segs(pairs: Seq<(Seq<char>, Seq<char>)>) -> Seq<SegView>
    decreases pairs.len(),
{
    if pairs.len() == 0 {
        seq![]
    } else {
        hint_segs(pairs.drop_last()) + seq![
            (pairs.last().0, Tone::Accent, false),
            (pairs.last().1, Tone::Text, false),
        ]
    }
}

fn push_hint(
    segs: &mut Vec<Seg>,
    pairs: Ghost<Seq<(Seq<char>, Seq<char>)>>,
    key: &str,
    desc: &str,
)
    requires
        segs_view(old(segs)@) == hint_segs(pairs@),
    ensures
        segs_view(final(segs)@) == hint_segs(pairs@.push((key@, desc@))),
{
    push_seg(segs, key.to_owned(), Tone::Accent, false);
    push_seg(segs, desc.to_owned(), Tone::Text, false);
    proof {
        assert(pairs@.push((key@, desc@)).drop_last() =~= pairs@);
    }
}

/// The hint bar for `mode` on a terminal `width` columns wide.
pub fn hints_row(mode: Mode, width: u16) -> (r: Row)
    ensures
        r@ == (hint_segs(hint_pairs_spec(mode, width as int)), Tone::Base, false),
{
    let w = width as usize;
    let mut segs: Vec<Seg> = Vec::new();
    let ghost mut pairs: Seq<(Seq<char>, Seq<char>)> = seq![];
    proof {
        assert(segs_view(segs@) =~= hint_segs(pairs));
    }
    match mode {
        Mode::Normal => {
            if w >= HINT_W_HELP + HINT_W_R {
                push_hint(&mut segs, Ghost(pairs), "[r]", " Refresh  ");
                proof {
                    pairs = pairs.push(("[r]"@, " Refresh  "@));
                }
            }
            if w >= HINT_W_HELP + HINT_W_R + HINT_W_X {
                push_hint(&mut segs, Ghost(pairs), "[x]", " Delete  ");
                proof {
                    pairs = pairs.push(("[x]"@, " Delete  "@));
                }
            }
            if w >= HINT_W_HELP + HINT_W_R + HINT_W_X + HINT_W_C {
                push_hint(&mut segs, Ghost(pairs), "[c]", " Clear all  ");
                proof {
                    pairs = pairs.push(("[c]"@, " Clear all  "@));
                }
            }
            push_hint(&mut segs, Ghost(pairs), "[?]", " Help");
            proof {
                pairs = pairs.push(("[?]"@, " Help"@));
                assert(pairs =~= hint_pairs_spec(mode, width as int));
            }
        },
        Mode::Filter => {
            push_hint(&mut segs, Ghost(pairs), "[Enter]", " Confirm  ");
            proof {
                pairs = pairs.push(("[Enter]"@, " Confirm  "@));
            }
            push_hint(&mut segs, Ghost(pairs), "[Esc]", " Cancel");
            proof {
                pairs = pairs.push(("[Esc]"@, " Cancel"@));
                assert(pairs =~= hint_pairs_spec(mode, width as int));
            }
        },
        Mode::Help => {
            push_hint(&mut segs, Ghost(pairs), "[Esc]", " Close");
            proof {
                pairs = pairs.push(("[Esc]"@, " Close"@));
                assert(pairs =~= hint_pairs_spec(mode, width as int));
            }
        },
        _ => {},
    }
    Row { segs, tone: Tone::Base, lit: false }
}

// ── Page dots ─────────────────────────────────────────────────────────────────

/// Minimum width at which the dots row is drawn (1 dot + both markers).
pub const DOTS_MIN_WIDTH: usize = 11;

/// Columns of each truncation marker (`NN...`, `...NN`, `99+..`, `..+99`).
pub const DOTS_MARKER_WIDTH: usize = 5;

/// The dot of page `i`: filled in the accent colour for the current page.
pub open spec fn dot_seg(i: int, page: int) -> SegView {
    if i == page {
        ("●"@, Tone::Accent, false)
    } else {
        ("○"@, Tone::Text, false)
    }
}

/// The dots of pages `from .. from + count`, separated by single spaces.
pub open spec fn dot_run(from: int, count: int, page: int) -> Seq<SegView>
    decreases count,
{
    if count <= 0 {
        seq![]
    } else if count == 1 {
        seq![dot_seg(from, page)]
    } else {
        dot_run(from, count - 1, page) + seq![
            (" "@, Tone::Base, false),
            dot_seg(from + count - 1, page),
        ]
    }
}

/// A number right-aligned in two columns (`format!("{:2}")`).
pub open spec fn pad2(v: nat) -> Seq<char> {
    if v < 10 {
        seq![' '] + nat_digits(v)
    } else {
        nat_digits(v)
    }
}

/// The marker for `left` pages hidden before the visible dots.
pub open spec fn left_marker(left: nat) -> Seq<char> {
    if left >= 99 {
        "99+.."@
    } else {
        pad2(left) + "..."@
    }
}

/// The marker for `right` pages hidden after the visible dots.
pub open spec fn right_marker(right: nat) -> Seq<char> {
    if right >= 99 {
        "..+99"@
    } else {
        "..."@ + pad2(right)
    }
}

/// The number of dots shown when not all fit in `budget` columns.
pub open spec fn visible_dots(budget: int) -> int {
    let k = (budget - (2 * DOTS_MARKER_WIDTH - 1)) / 2;
    if k < 1 {
        1
    } else {
        k
    }
}

/// The first page whose dot is shown: the window of `k` dots centred on
/// the current page, kept within the pages.
pub open spec fn window_start(n: int, page: int, k: int) -> int {
    let half = (k - 1) / 2;
    let ideal = if page > half {
        page - half
    } else {
        0
    };
    let last_start = if n > k {
        n - k
    } else {
        0
    };
    if ideal < last_start {
        ideal
    } else {
        last_start
    }
}

/// The truncated dots: markers for hidden pages on either side of a
/// window of dots centred on the current page.
pub open spec fn truncated_dots(n: int, page: int, budget: int) -> Seq<SegView> {
    let k = visible_dots(budget);
    let ws = window_start(n, page, k);
    let left = ws;
    let right = n - 1 - (ws + k - 1);
    (if left > 0 {
        seq![(left_marker(left as nat), Tone::Faint, false)]
    } else {
        seq![]
    }) + dot_run(ws, k, page) + (if right > 0 {
        seq![(right_marker(right as nat), Tone::Faint, false)]
    } else {
        seq![]
    })
}

/// `(a - b) / 2`, or 0 when `b` is larger.
pub open spec fn half_gap(a: int, b: int) -> int {
    if a > b {
        (a - b) / 2
    } else {
        0
    }
}

/// The page-dots row for `n` pages: nothing for a single page; all dots,
/// centred, when they fit in `budget` columns; nothing below the minimum
/// width; otherwise the truncated dots, centred. Centring is within
/// `render_width` columns.
pub open spec fn dots_spec(n: int, page: int, render_width: int, budget: int) -> Seq<SegView> {
    if n <= 1 {
        seq![]
    } else if 2 * n - 1 <= budget {
        seq![(spaces(half_gap(render_width, 2 * n - 1) as nat), Tone::Base, false)] + dot_run(
            0,
            n,
            page,
        )
    } else if budget < DOTS_MIN_WIDTH {
        seq![]
    } else {
        let t = truncated_dots(n, page, budget);
        seq![(spaces(half_gap(render_width, segs_cols(t) as int) as nat), Tone::Base, false)] + t
    }
}

/// Append the dots of pages `from .. from + count`.
fn push_dot_run(segs: &mut Vec<Seg>, from: usize, count: usize, page: usize)
    requires
        from + count <= usize::MAX,
    ensures
        segs_view(final(segs)@) == segs_view(old(segs)@) + dot_run(
            from as int,
            count as int,
            page as int,
        ),
{
    let mut j: usize = 0;
    proof {
        assert(segs_view(segs@) =~= segs_view(old(segs)@) + dot_run(from as int, 0, page as int));
    }
    while j < count
        invariant
            j <= count,
            from + count <= usize::MAX,
            segs_view(segs@) == segs_view(old(segs)@) + dot_run(from as int, j as int, page as int),
        decreases count - j,
    {
        let ghost before = segs_view(segs@);
        if j > 0 {
            push_seg(segs, " ".to_owned(), Tone::Base, false);
        }
        let i = from + j;
        if i == page {
            push_seg(segs, "●".to_owned(), Tone::Accent, false);
        } else {
            push_seg(segs, "○".to_owned(), Tone::Text, false);
        }
        proof {
            if j == 0 {
                assert(dot_run(from as int, 1, page as int) == seq![dot_seg(from as int, page as int)]);
                assert(segs_view(segs@) =~= segs_view(old(segs)@) + dot_run(
                    from as int,
                    1,
                    page as int,
                ));
            } else {
                assert(segs_view(segs@) =~= segs_view(old(segs)@) + dot_run(
                    from as int,
                    j + 1,
                    page as int,
                ));
            }
        }
        j += 1;
    }
}

/// Append `v` right-aligned in two columns.
fn push_pad2(s: &mut String, v: usize)
    requires
        v < 99,
    ensures
        final(s)@ == old(s)@ + pad2(v as nat),
{
    if v < 10 {
        s.push(' ');
    }
    push_decimal(s, v as u64);
    proof {
        assert(final(s)@ =~= old(s)@ + pad2(v as nat)) by {
            if v < 10 {
                assert(old(s)@.push(' ') + nat_digits(v as nat) =~= old(s)@ + pad2(v as nat));
            }
        }
    }
}

/// The dots of a page-dots row (see `dots_spec`).
pub fn dots_content(n: usize, page: usize, render_width: usize, budget: usize) -> (r: Vec<Seg>)
    ensures
        segs_view(r@) == dots_spec(n as int, page as int, render_width as int, budget as int),
{
    let mut segs: Vec<Seg> = Vec::new();
    if n <= 1 {
        proof {
            assert(segs_view(segs@) =~= Seq::<SegView>::empty());
        }
        return segs;
    }
    let fits = n <= budget && n - 1 <= budget - n;
    if fits {
        let full_width = n + (n - 1);
        let pad = render_width.saturating_sub(full_width) / 2;
        push_seg(&mut segs, repeat_space(pad), Tone::Base, false);
        push_dot_run(&mut segs, 0, n, page);
        return segs;
    }
    if budget < DOTS_MIN_WIDTH {
        proof {
            assert(segs_view(segs@) =~= Seq::<SegView>::empty());
        }
        return segs;
    }
    let k0 = (budget - (2 * DOTS_MARKER_WIDTH - 1)) / 2;
    let k = if k0 < 1 {
        1
    } else {
        k0
    };
    let half = (k - 1) / 2;
    let ideal_start = page.saturating_sub(half);
    let last_start = n.saturating_sub(k);
    let ws = if ideal_start < last_start {
        ideal_start
    } else {
        last_start
    };
    let we = ws + k - 1;
    let left_count = ws;
    let right_count = n - 1 - we;
    let mut parts: Vec<Seg> = Vec::new();
    if left_count > 0 {
        let mut m = String::new();
        if left_count >= 99 {
            push_all(&mut m, "99+..");
        } else {
            push_pad2(&mut m, left_count);
            push_all(&mut m, "...");
        }
        proof {
            assert(m@ =~= left_marker(left_count as nat));
        }
        push_seg(&mut parts, m, Tone::Faint, false);
    }
    let ghost after_left = segs_view(parts@);
    push_dot_run(&mut parts, ws, k, page);
    let ghost after_dots = segs_view(parts@);
    if right_count > 0 {
        let mut m = String::new();
        if right_count >= 99 {
            push_all(&mut m, "..+99");
        } else {
            push_all(&mut m, "...");
            push_pad2(&mut m, right_count);
        }
        proof {
            assert(m@ =~= right_marker(right_count as nat));
        }
        push_seg(&mut parts, m, Tone::Faint, false);
    }
    proof {
        assert(segs_view(parts@) =~= truncated_dots(n as int, page as int, budget as int));
    }
    let content_width = segs_width(&parts);
    let pad = render_width.saturating_sub(content_width) / 2;
    push_seg(&mut segs, repeat_space(pad), Tone::Base, false);
    let ghost head = segs_view(segs@);
    let mut i: usize = 0;
    let ghost pv = segs_view(parts@);
    while i < parts.len()
        invariant
            i <= parts@.len(),
            pv == segs_view(parts@),
            segs_view(segs@) == head + pv.take(i as int),
        decreases parts.len() - i,
    {
        let p = &parts[i];
        let t = p.text.clone();
        push_seg(&mut segs, t, p.tone, p.lit);
        proof {
            assert(pv.take(i + 1) =~= pv.take(i as int).push(pv[i as int]));
        }
        i += 1;
    }
    proof {
        assert(pv.take(i as int) =~= pv);
    }
    segs
}

/// The page-dots line: the dots, in a row narrowed by three columns when
/// the `[?]` hint sits at its right end.
pub struct DotsLine {
    pub dots: Row,
    pub dots_width: u16,
    pub hint: Option<Row>,
}

/// The page-dots line for `n` pages on a row `width` columns wide: the
/// dots row, its width (three columns less when the `[?]` hint sits at its
/// right end), and the hint row. The number of dots shown is always
/// budgeted as if the hint were there, so toggling the hint bar never
/// changes it.
pub open spec fn dots_line_spec(n: int, page: int, width: int, show_help_hint: bool) -> (
    RowView,
    int,
    Option<RowView>,
) {
    let budget = if width >= 3 {
        width - 3
    } else {
        0
    };
    let dots_width = if show_help_hint {
        budget
    } else {
        width
    };
    (
        (dots_spec(n, page, dots_width, budget), Tone::Base, false),
        dots_width,
        if show_help_hint {
            Some((seq![("[?]"@, Tone::Accent, false)], Tone::Base, false))
        } else {
            None
        },
    )
}

/// The view of an optional row.
pub open spec fn opt_row_view(r: Option<Row>) -> Option<RowView> {
    match r {
        Some(x) => Some(x@),
        None => None,
    }
}

/// The page-dots line for `n` pages, the current one `page`.
pub fn dots_line(n: usize, page: usize, width: u16, show_help_hint: bool) -> (r: DotsLine)
    ensures
        (r.dots@, r.dots_width as int, opt_row_view(r.hint)) == dots_line_spec(
            n as int,
            page as int,
            width as int,
            show_help_hint,
        ),
{
    let hint_w: u16 = if show_help_hint {
        3
    } else {
        0
    };
    let dots_width = width.saturating_sub(hint_w);
    let constrained = width.saturating_sub(3) as usize;
    let segs = dots_content(n, page, dots_width as usize, constrained);
    let hint = if show_help_hint {
        let mut h: Vec<Seg> = Vec::new();
        proof {
            assert(segs_view(h@) =~= Seq::<SegView>::empty());
        }
        push_seg(&mut h, "[?]".to_owned(), Tone::Accent, false);
        Some(Row { segs: h, tone: Tone::Base, lit: false })
    } else {
        None
    };
    DotsLine { dots: Row { segs, tone: Tone::Base, lit: false }, dots_width, hint }
}

// ── Terminal too small ────────────────────────────────────────────────────────

/// The message asking for a terminal of at least `min_w` by `min_h`.
pub open spec fn too_small_message(min_w: nat, min_h: nat) -> Seq<char> {
    "Terminal too small to function, please resize the terminal window to at least "@
        + nat_digits(min_w) + " x "@ + nat_digits(min_h) + "."@
}

/// The lines of that message, wrapped to `width` columns (unwrapped when
/// there are none).
pub open spec fn too_small_spec(width: int, min_w: nat, min_h: nat) -> Seq<Seq<char>> {
    let msg = too_small_message(min_w, min_h);
    if width == 0 {
        seq![msg]
    } else {
        wrap_spec(msg, width).map_values(|p: (Seq<char>, int)| p.0)
    }
}

/// The lines shown instead of the interface when the terminal is too small.
pub fn too_small_lines(width: u16, min_w: u16, min_h: u16) -> (r: Vec<String>)
    ensures
        crate::text::views(r@) == too_small_spec(width as int, min_w as nat, min_h as nat),
{
    let mut msg = String::new();
    push_all(
        &mut msg,
        "Terminal too small to function, please resize the terminal window to at least ",
    );
    push_decimal(&mut msg, min_w as u64);
    push_all(&mut msg, " x ");
    push_decimal(&mut msg, min_h as u64);
    push_all(&mut msg, ".");
    let mut out: Vec<String> = Vec::new();
    if width == 0 {
        let ghost m = msg@;
        out.push(msg);
        proof {
            assert(crate::text::views(out@) =~= seq![m]);
        }
        return out;
    }
    let pieces = wrap_to_cols(msg.as_str(), width as usize);
    let ghost pv = pieces_view(pieces@);
    let mut i: usize = 0;
    while i < pieces.len()
        invariant
            i <= pieces@.len(),
            pv == pieces_view(pieces@),
            crate::text::views(out@) == pv.take(i as int).map_values(
                |p: (Seq<char>, int)| p.0,
            ),
        decreases pieces.len() - i,
    {
        let ghost before = out@;
        let t = pieces[i].0.clone();
        proof {
            assert(pv[i as int].0 == pieces@[i as int].0@);
            assert(t@ == pv[i as int].0);
        }
        out.push(t);
        proof {
            assert(crate::text::views(out@) =~= crate::text::views(before).push(t@));
            assert(pv.take(i + 1).map_values(|p: (Seq<char>, int)| p.0) =~= pv.take(
                i as int,
            ).map_values(|p: (Seq<char>, int)| p.0).push(pv[i as int].0));
            assert(crate::text::views(out@) =~= pv.take(i + 1).map_values(
                |p: (Seq<char>, int)| p.0,
            ));
        }
        i += 1;
    }
    proof {
        assert(pv.take(i as int) =~= pv);
    }
    out
}

// ── Laws ──────────────────────────────────────────────────────────────────────

/// The `[?] Help` hint is never hidden in normal mode, however narrow the
/// terminal.
pub proof fn lemma_help_hint_kept(width: int)
    ensures
        hint_pairs_spec(Mode::Normal, width).len() >= 1,
        hint_pairs_spec(Mode::Normal, width).last() == ("[?]"@, " Help"@),
{
}

/// When not all dots fit, the window of dots stays within the pages, the
/// current page's dot is always among those shown, and the markers count
/// exactly the pages left out.
pub proof fn lemma_current_dot_shown(n: int, page: int, budget: int)
    requires
        1 < n,
        0 <= page < n,
        DOTS_MIN_WIDTH <= budget < 2 * n - 1,
    ensures
        ({
            let k = visible_dots(budget);
            let ws = window_start(n, page, k);
            &&& 1 <= k <= n
            &&& 0 <= ws <= page < ws + k <= n
            &&& ws + k + (n - 1 - (ws + k - 1)) == n
        }),
{
    let k = visible_dots(budget);
    assert(k <= n);
}

/// Toggling the hint bar never changes the dots shown: with or without the
/// `[?]` hint, the dots row differs at most in the centring spaces that
/// open it.
pub proof fn lemma_dots_ignore_hint(n: int, page: int, width: int)
    ensures
        ({
            let with_hint = dots_line_spec(n, page, width, true).0.0;
            let without = dots_line_spec(n, page, width, false).0.0;
            &&& with_hint.len() == without.len()
            &&& forall|i: int| 1 <= i < with_hint.len() ==> with_hint[i] == without[i]
        }),
{
}

} // verus!
