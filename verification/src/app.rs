//! The state of the history viewer: the notifications, the filtered list,
//! pagination, the cursor, multi-selection, and the mutations the keys make.
use std::collections::HashSet;

use vstd::prelude::*;

use crate::config::Config;
use crate::filter::{fuzzy_accepts, skim_indices, Filter};
use crate::notification::{
    history_content, history_fits, notif_views, parse_history, spec_history_content,
    spec_parse_history, NotifView, Notification,
};

verus! {

broadcast use vstd::std_specs::hash::group_hash_axioms;

// ── Mode ──────────────────────────────────────────────────────────────────────

/// What the keys currently do.
#[derive(Debug, Clone, Copy, PartialEq, Eq, Structural)]
pub enum Mode {
    Normal,
    Filter,
    ConfirmClearAll,
    ConfirmClearSelected,
    Help,
}

// ── Per-notification match indices for highlight rendering ────────────────────

/// Matched character positions of the filter query, per field.
pub struct NotifMatchIndices {
    pub summary: Vec<usize>,
    pub app_name: Vec<usize>,
    /// Match indices per displayed body line (indexed by line position in the body)
    pub body_per_line: Vec<Vec<usize>>,
}

impl Default for NotifMatchIndices {
    fn default() -> (r: Self)
        ensures
            r.summary@.len() == 0,
            r.app_name@.len() == 0,
            r.body_per_line@.len() == 0,
    {
        NotifMatchIndices { summary: Vec::new(), app_name: Vec::new(), body_per_line: Vec::new() }
    }
}

// ── Pagination arithmetic ─────────────────────────────────────────────────────

/// The number of pages for `len` items, `ipp` per page (at least one).
pub open spec fn num_pages_spec(len: int, ipp: int) -> int {
    if len == 0 {
        1
    } else {
        len / ipp + if len % ipp != 0 {
            1int
        } else {
            0int
        }
    }
}

/// The number of items on page `page`.
pub open spec fn items_on_page_spec(len: int, ipp: int, page: int) -> int {
    if len == 0 {
        0
    } else {
        let start = page * ipp;
        let end = if (page + 1) * ipp < len {
            (page + 1) * ipp
        } else {
            len
        };
        if end > start {
            end - start
        } else {
            0
        }
    }
}

/// Whether page and cursor point at an item (or are both 0 on an empty list).
pub open spec fn cursor_ok(len: int, ipp: int, page: int, cursor: int) -> bool {
    if len == 0 {
        page == 0 && cursor == 0
    } else {
        page * ipp < len && cursor < items_on_page_spec(len, ipp, page)
    }
}

/// Page and cursor brought back onto a list of `len` items: both 0 on an
/// empty list, else the page at most the last one and the cursor at most
/// the last item of that page.
pub open spec fn clamp_spec(len: int, ipp: int, page: int, cursor: int) -> (int, int) {
    if len == 0 {
        (0, 0)
    } else {
        let p = if page < num_pages_spec(len, ipp) {
            page
        } else {
            num_pages_spec(len, ipp) - 1
        };
        let items = items_on_page_spec(len, ipp, p);
        (p, if cursor < items {
            cursor
        } else {
            items - 1
        })
    }
}

/// The facts about pages that the navigation rests on.
pub proof fn lemma_pages(len: int, ipp: int, page: int)
    requires
        len > 0,
        ipp >= 1,
        page >= 0,
    ensures
        (page * ipp < len) == (page < num_pages_spec(len, ipp)),
        num_pages_spec(len, ipp) >= 1,
        num_pages_spec(len, ipp) <= len,
        page * ipp < len ==> items_on_page_spec(len, ipp, page) >= 1,
        page * ipp < len ==> page * ipp + items_on_page_spec(len, ipp, page) <= len,
        page + 1 < num_pages_spec(len, ipp) ==> items_on_page_spec(len, ipp, page) == ipp,
        page + 1 == num_pages_spec(len, ipp) ==> page * ipp + items_on_page_spec(len, ipp, page)
            == len,
        (page + 1) * ipp == page * ipp + ipp,
{
    let q = len / ipp;
    let r = len % ipp;
    assert(len == q * ipp + r && 0 <= r < ipp) by (nonlinear_arith)
        requires
            ipp >= 1,
            q == len / ipp,
            r == len % ipp,
    ;
    assert((page + 1) * ipp == page * ipp + ipp) by (nonlinear_arith);
    assert(q >= 0) by (nonlinear_arith)
        requires
            len > 0,
            ipp >= 1,
            q == len / ipp,
    ;
    assert(q * ipp >= q) by (nonlinear_arith)
        requires
            q >= 0,
            ipp >= 1,
    ;
    if q == 0 {
        assert(q * ipp == 0) by (nonlinear_arith)
            requires
                q == 0,
        ;
    }
    if page < q {
        assert(page * ipp + ipp <= q * ipp) by (nonlinear_arith)
            requires
                page < q,
                ipp >= 1,
        ;
    } else if page == q {
    } else {
        assert(page * ipp >= q * ipp + ipp) by (nonlinear_arith)
            requires
                page > q,
                ipp >= 1,
        ;
    }
}

// ── App ───────────────────────────────────────────────────────────────────────

/// The viewer's state.
pub struct App {
    /// All notifications in newest-first order (as stored in the file).
    pub all_notifications: Vec<Notification>,
    /// Indices into `all_notifications` that pass the current filter.
    pub display_list: Vec<usize>,
    /// Cursor position within the *current page* (0-based).
    pub cursor: usize,
    /// Current page (0-based).
    pub page: usize,
    /// How many notifications fit on one page (recalculated each frame).
    pub items_per_page: usize,
    /// Indices into `all_notifications` that are multi-selected.
    pub multi_selected: HashSet<usize>,
    pub mode: Mode,
    pub filter_input: String,
    pub config: Config,
    /// Path of the history file.
    pub history_file: String,
    /// Rows a single notification occupies on screen (title + body + datetime + separator).
    pub rows_per_notif: usize,
    /// Effective body lines after capping against the available content height.
    pub effective_body_lines: usize,
    /// Whether the hint bar at the bottom is shown.
    pub show_hints: bool,
    /// Current page inside the help / keybinds popup (0-based).
    pub help_page: usize,
    /// Total pages inside the help / keybinds popup.
    pub help_total_pages: usize,
    /// The fuzzy matcher behind the filter.
    pub filter: Filter,
}

/// The text searched by the filter: summary, app name and body.
pub open spec fn search_text_spec(n: NotifView) -> Seq<char> {
    n.2 + seq![' '] + n.1 + seq![' '] + n.3
}

/// Whether a notification passes the filter query `q` (an empty query
/// passes everything).
pub open spec fn passes_filter(n: NotifView, q: Seq<char>) -> bool {
    q.len() == 0 || fuzzy_accepts(search_text_spec(n), q)
}

/// The indices among the first `k` notifications that pass the filter.
pub open spec fn shown_upto(all: Seq<NotifView>, q: Seq<char>, k: int) -> Seq<usize>
    decreases k,
{
    if k <= 0 {
        seq![]
    } else if passes_filter(all[k - 1], q) {
        shown_upto(all, q, k - 1).push((k - 1) as usize)
    } else {
        shown_upto(all, q, k - 1)
    }
}

/// The indices of the notifications that pass the filter, in order.
pub open spec fn shown_indices(all: Seq<NotifView>, q: Seq<char>) -> Seq<usize> {
    shown_upto(all, q, all.len() as int)
}

proof fn lemma_shown_upto_bounds(all: Seq<NotifView>, q: Seq<char>, k: int)
    requires
        0 <= k <= all.len(),
    ensures
        shown_upto(all, q, k).len() <= k,
        forall|i: int| 0 <= i < shown_upto(all, q, k).len() ==> #[trigger] shown_upto(all, q, k)[i] < k,
    decreases k,
{
    if k > 0 {
        lemma_shown_upto_bounds(all, q, k - 1);
    }
}

impl App {
    /// The notifications as plain values.
    pub open spec fn notifs(&self) -> Seq<NotifView> {
        notif_views(self.all_notifications@)
    }

    /// The global position of the cursor in the displayed list.
    pub open spec fn position(&self) -> int {
        self.page * self.items_per_page + self.cursor
    }

    /// The state the viewer keeps between key presses: at least one item per
    /// page, displayed indices that point at notifications, and a cursor on
    /// an item of the current page (page and cursor 0 on an empty list).
    pub open spec fn wf(&self) -> bool {
        &&& self.items_per_page >= 1
        &&& forall|i: int|
            0 <= i < self.display_list@.len() ==> #[trigger] self.display_list@[i]
                < self.all_notifications@.len()
        &&& cursor_ok(
            self.display_list@.len() as int,
            self.items_per_page as int,
            self.page as int,
            self.cursor as int,
        )
    }

    /// The number of pages of the displayed list.
    pub open spec fn pages(&self) -> int {
        num_pages_spec(self.display_list@.len() as int, self.items_per_page as int)
    }

    /// The number of items on the current page.
    pub open spec fn items_here(&self) -> int {
        items_on_page_spec(
            self.display_list@.len() as int,
            self.items_per_page as int,
            self.page as int,
        )
    }

    /// A viewer on `config` with no notifications loaded yet; its history
    /// file is the one the configuration names.
    pub fn new(config: Config) -> (r: Self)
        ensures
            r.wf(),
            r.all_notifications@.len() == 0,
            r.display_list@.len() == 0,
            r.cursor == 0,
            r.page == 0,
            r.items_per_page == 1,
            r.multi_selected@.is_empty(),
            r.mode == Mode::Normal,
            r.filter_input@.len() == 0,
            r.rows_per_notif == 3 + config.display.body_lines,
            r.effective_body_lines == config.display.body_lines,
            r.show_hints == config.display.show_hints,
            r.help_page == 0,
            r.help_total_pages == 1,
            r.config == config,
            !config.persistence.enabled ==> r.history_file@
                == crate::config::default_history_path(),
            exists|state: Option<Seq<char>>, home: Option<Seq<char>>|
                r.history_file@ == crate::config::history_path_spec(
                    config.persistence.enabled,
                    state,
                    home,
                ),
    {
        let history_file = config.history_file();
        let body_lines = config.display.body_lines as usize;
        let rows_per_notif = 3 + body_lines;
        let show_hints = config.display.show_hints;
        App {
            all_notifications: Vec::new(),
            display_list: Vec::new(),
            cursor: 0,
            page: 0,
            items_per_page: 1,
            multi_selected: HashSet::new(),
            mode: Mode::Normal,
            filter_input: String::new(),
            history_file,
            config,
            rows_per_notif,
            effective_body_lines: body_lines,
            show_hints,
            help_page: 0,
            help_total_pages: 1,
            filter: Filter::new(),
        }
    }

    // ── Pagination helpers ────────────────────────────────────────────────────

    /// The number of pages: 1 for an empty list, else the list length
    /// divided by the items per page, rounded up.
    pub fn num_pages(&self) -> (r: usize)
        requires
            self.items_per_page >= 1,
        ensures
            r == self.pages(),
    {
        let len = self.display_list.len();
        if len == 0 {
            1
        } else {
            proof {
                let ipp = self.items_per_page as int;
                let l = len as int;
                assert(l % ipp != 0 ==> l / ipp < usize::MAX) by (nonlinear_arith)
                    requires
                        ipp >= 1,
                        0 <= l <= usize::MAX,
                ;
            }
            len / self.items_per_page + if len % self.items_per_page != 0 {
                1
            } else {
                0
            }
        }
    }

    /// How many items the current page holds (0 beyond the last page).
    pub fn items_on_current_page(&self) -> (r: usize)
        requires
            self.page + 1 <= usize::MAX,
            (self.page + 1) * self.items_per_page <= usize::MAX,
        ensures
            r == self.items_here(),
    {
        if self.display_list.len() == 0 {
            return 0;
        }
        proof {
            assert((self.page + 1) * self.items_per_page == self.page * self.items_per_page
                + self.items_per_page) by (nonlinear_arith);
            assert(self.page * self.items_per_page <= (self.page + 1) * self.items_per_page) by (
            nonlinear_arith);
        }
        let start = self.page * self.items_per_page;
        let next = (self.page + 1) * self.items_per_page;
        let end = if next < self.display_list.len() {
            next
        } else {
            self.display_list.len()
        };
        if end > start {
            end - start
        } else {
            0
        }
    }

    /// The items on the current page of a well-formed state.
    fn items_here_exec(&self) -> (r: usize)
        requires
            self.items_per_page >= 1,
            self.display_list@.len() > 0 ==> self.page * self.items_per_page
                < self.display_list@.len(),
        ensures
            r == self.items_here(),
            self.display_list@.len() > 0 ==> r >= 1,
    {
        let len = self.display_list.len();
        if len == 0 {
            return 0;
        }
        proof {
            lemma_pages(len as int, self.items_per_page as int, self.page as int);
        }
        let start = self.page * self.items_per_page;
        let rest = len - start;
        if rest > self.items_per_page {
            self.items_per_page
        } else {
            rest
        }
    }

    /// Global index into `display_list` for the cursor position.
    pub fn cursor_display_idx(&self) -> (r: usize)
        requires
            self.position() <= usize::MAX,
        ensures
            r == self.position(),
    {
        proof {
            assert(self.page * self.items_per_page <= self.position()) by (nonlinear_arith)
                requires
                    self.position() == self.page * self.items_per_page + self.cursor,
            ;
        }
        self.page * self.items_per_page + self.cursor
    }

    /// Index into `all_notifications` that the cursor currently points at.
    pub fn cursor_notif_idx(&self) -> (r: Option<usize>)
        requires
            self.position() <= usize::MAX,
        ensures
            r == if self.position() < self.display_list@.len() {
                Some(self.display_list@[self.position()])
            } else {
                None
            },
    {
        let i = self.cursor_display_idx();
        if i < self.display_list.len() {
            Some(self.display_list[i])
        } else {
            None
        }
    }

    /// Bring page and cursor back onto the list: to 0 on an empty list,
    /// else the page to at most the last one and the cursor to at most the
    /// last item of that page.
    fn clamp_cursor(&mut self)
        requires
            old(self).items_per_page >= 1,
            forall|i: int|
                0 <= i < old(self).display_list@.len() ==> #[trigger] old(self).display_list@[i]
                    < old(self).all_notifications@.len(),
        ensures
            final(self).wf(),
            same_but_position(&*final(self), &*old(self)),
            (final(self).page as int, final(self).cursor as int) == clamp_spec(
                old(self).display_list@.len() as int,
                old(self).items_per_page as int,
                old(self).page as int,
                old(self).cursor as int,
            ),
    {
        let len = self.display_list.len();
        if len == 0 {
            self.cursor = 0;
            self.page = 0;
            return;
        }
        proof {
            lemma_pages(len as int, self.items_per_page as int, 0);
        }
        let max_page = self.num_pages() - 1;
        if self.page > max_page {
            self.page = max_page;
        }
        proof {
            lemma_pages(len as int, self.items_per_page as int, self.page as int);
        }
        let items = self.items_here_exec();
        let max_cursor = items - 1;
        if self.cursor > max_cursor {
            self.cursor = max_cursor;
        }
    }
}

/// Everything but page and cursor is the same in `a` and `b`.
pub open spec fn same_but_position(a: &App, b: &App) -> bool {
    *a == (App { page: a.page, cursor: a.cursor, ..*b })
}

/// `b` is `a` after the cursor moves up (`move_up`).
pub open spec fn moved_up(a: &App, b: &App) -> bool {
    &&& same_but_position(b, a)
    &&& a.cursor > 0 ==> b.page == a.page && b.cursor
        == a.cursor - 1
    &&& a.cursor == 0 && a.page > 0 ==> b.page == a.page - 1
        && b.cursor == b.items_here() - 1
    &&& a.cursor == 0 && a.page == 0 ==> b.page == 0
        && b.cursor == 0
    &&& b.position() == if a.position() > 0 {
        a.position() - 1
    } else {
        0
    }
}

/// `b` is `a` after the cursor moves down (`move_down`).
pub open spec fn moved_down(a: &App, b: &App) -> bool {
    &&& same_but_position(b, a)
    &&& a.cursor + 1 < a.items_here() ==> b.page == a.page
        && b.cursor == a.cursor + 1
    &&& a.cursor + 1 >= a.items_here() && a.page + 1 < a.pages()
        ==> b.page == a.page + 1 && b.cursor == 0
    &&& a.cursor + 1 >= a.items_here() && a.page + 1 >= a.pages()
        ==> b.page == a.page && b.cursor == a.cursor
    &&& a.display_list@.len() > 0 ==> b.position() == if a.position()
        + 1 < a.display_list@.len() {
        a.position() + 1
    } else {
        a.position()
    }
}

/// `b` is `a` after going to the previous page (`prev_page`).
pub open spec fn paged_back(a: &App, b: &App) -> bool {
    &&& same_but_position(b, a)
    &&& a.page > 0 ==> b.page == a.page - 1 && b.cursor == 0
    &&& a.page == 0 ==> b.page == 0 && b.cursor == a.cursor
}

/// `b` is `a` after going to the next page (`next_page`).
pub open spec fn paged_on(a: &App, b: &App) -> bool {
    &&& same_but_position(b, a)
    &&& a.page + 1 < a.pages() ==> b.page == a.page + 1
        && b.cursor == 0
    &&& a.page + 1 >= a.pages() ==> b.page == a.page
        && b.cursor == a.cursor
}

/// `b` is `a` after going to the first item (`go_to_start`).
pub open spec fn went_to_start(a: &App, b: &App) -> bool {
    &&& same_but_position(b, a)
    &&& b.page == 0
    &&& b.cursor == 0
    &&& b.position() == 0
}

/// `b` is `a` after going to the last item (`go_to_end`).
pub open spec fn went_to_end(a: &App, b: &App) -> bool {
    &&& same_but_position(b, a)
    &&& b.page == a.pages() - 1
    &&& a.display_list@.len() == 0 ==> b.cursor == 0
    &&& a.display_list@.len() > 0 ==> b.position()
        == a.display_list@.len() - 1
}

/// `b` is `a` with the hint bar toggled (`toggle_hints`).
pub open spec fn hints_toggled(a: &App, b: &App) -> bool {
    &&& *b == (App { show_hints: !a.show_hints, ..*a })
}

/// `b` is `a` with the current item's selection toggled
/// (`toggle_select_current`).
pub open spec fn selection_toggled(a: &App, b: &App) -> bool {
    &&& b.multi_selected@ == (if a.position() < a.display_list@.len() {
        toggle_spec(a.multi_selected@, a.display_list@[a.position()])
    } else {
        a.multi_selected@
    })
    &&& *b == (App { multi_selected: b.multi_selected, ..*a })
}

/// `b` is `a` after deleting the current item
/// (`remove_current_notification`), which returned `removed`.
pub open spec fn current_removed(a: &App, b: &App, removed: bool) -> bool {
    &&& removed == (a.position() < a.display_list@.len())
    &&& removed ==> {
        let idx = a.display_list@[a.position()];
        &&& b.all_notifications@ == a.all_notifications@.remove(idx as int)
        &&& b.multi_selected@ == shift_selection(a.multi_selected@, idx)
        &&& b.display_list@ == shown_indices(
            b.notifs(),
            a.filter_input@,
        )
        &&& (b.page as int, b.cursor as int) == clamp_spec(
            b.display_list@.len() as int,
            a.items_per_page as int,
            a.page as int,
            a.cursor as int,
        )
    }
    &&& removed ==> *b == (App {
        all_notifications: b.all_notifications,
        multi_selected: b.multi_selected,
        display_list: b.display_list,
        page: b.page,
        cursor: b.cursor,
        ..*a
    })
    &&& !removed ==> *b == *a
}

/// `b` is `a` after clearing everything (`clear_all_notifications`).
pub open spec fn all_cleared(a: &App, b: &App) -> bool {
    &&& b.all_notifications@.len() == 0
    &&& b.multi_selected@.is_empty()
    &&& b.display_list@.len() == 0
    &&& b.page == 0
    &&& b.cursor == 0
    &&& *b == (App {
        all_notifications: b.all_notifications,
        multi_selected: b.multi_selected,
        display_list: b.display_list,
        page: 0,
        cursor: 0,
        ..*a
    })
}

/// `b` is `a` after deleting the selected items
/// (`clear_selected_notifications`).
pub open spec fn selected_cleared(a: &App, b: &App) -> bool {
    &&& b.all_notifications@ == drop_selected(
        a.all_notifications@,
        a.multi_selected@,
        0,
    )
    &&& b.multi_selected@.is_empty()
    &&& b.display_list@ == shown_indices(b.notifs(), a.filter_input@)
    &&& (b.page as int, b.cursor as int) == clamp_spec(
        b.display_list@.len() as int,
        a.items_per_page as int,
        a.page as int,
        a.cursor as int,
    )
    &&& *b == (App {
        all_notifications: b.all_notifications,
        multi_selected: b.multi_selected,
        display_list: b.display_list,
        page: b.page,
        cursor: b.cursor,
        ..*a
    })
}

impl App {
    // ── Navigation ────────────────────────────────────────────────────────────

    /// Move the cursor up one item, onto the last item of the previous page
    /// from the top of a page; nothing at the very top.
    pub fn move_up(&mut self)
        requires
            old(self).wf(),
        ensures
            final(self).wf(),
            moved_up(&*old(self), &*final(self)),
    {
        let len = self.display_list.len();
        if self.cursor > 0 {
            self.cursor -= 1;
        } else if self.page > 0 {
            proof {
                lemma_pages(len as int, self.items_per_page as int, self.page as int);
                lemma_pages(len as int, self.items_per_page as int, self.page - 1);
            }
            let ghost p0 = self.page as int;
            let ghost ipp = self.items_per_page as int;
            self.page -= 1;
            let items = self.items_here_exec();
            self.cursor = items - 1;
            proof {
                let c = self.cursor as int;
                assert((p0 - 1) * ipp + c == p0 * ipp - 1) by (nonlinear_arith)
                    requires
                        c == ipp - 1,
                ;
            }
        } else {
            proof {
                assert(self.page * self.items_per_page == 0) by (nonlinear_arith)
                    requires
                        self.page == 0,
                ;
            }
        }
    }

    /// Move the cursor down one item, onto the first item of the next page
    /// from the bottom of a page; nothing at the very end.
    pub fn move_down(&mut self)
        requires
            old(self).wf(),
        ensures
            final(self).wf(),
            moved_down(&*old(self), &*final(self)),
    {
        let len = self.display_list.len();
        let items = self.items_here_exec();
        if len > 0 {
            proof {
                lemma_pages(len as int, self.items_per_page as int, self.page as int);
                lemma_pages(len as int, self.items_per_page as int, self.page + 1);
            }
        }
        if self.cursor + 1 < items {
            self.cursor += 1;
        } else if self.page + 1 < self.num_pages() {
            self.page += 1;
            self.cursor = 0;
        }
    }

    /// Go to the first item of the previous page, if there is one.
    pub fn prev_page(&mut self)
        requires
            old(self).wf(),
        ensures
            final(self).wf(),
            paged_back(&*old(self), &*final(self)),
    {
        if self.page > 0 {
            proof {
                lemma_pages(
                    self.display_list@.len() as int,
                    self.items_per_page as int,
                    self.page - 1,
                );
                lemma_pages(
                    self.display_list@.len() as int,
                    self.items_per_page as int,
                    self.page as int,
                );
            }
            self.page -= 1;
            self.cursor = 0;
        }
    }

    /// Go to the first item of the next page, if there is one.
    pub fn next_page(&mut self)
        requires
            old(self).wf(),
        ensures
            final(self).wf(),
            paged_on(&*old(self), &*final(self)),
    {
        let len = self.display_list.len();
        if len > 0 {
            proof {
                lemma_pages(len as int, self.items_per_page as int, self.page as int);
                lemma_pages(len as int, self.items_per_page as int, self.page + 1);
            }
        }
        if self.page + 1 < self.num_pages() {
            self.page += 1;
            self.cursor = 0;
        }
    }

    /// Go to the first item of the first page.
    pub fn go_to_start(&mut self)
        requires
            old(self).wf(),
        ensures
            final(self).wf(),
            went_to_start(&*old(self), &*final(self)),
    {
        let len = self.display_list.len();
        if len > 0 {
            proof {
                lemma_pages(len as int, self.items_per_page as int, 0);
            }
        }
        self.page = 0;
        self.cursor = 0;
    }

    /// Go to the last item of the last page.
    pub fn go_to_end(&mut self)
        requires
            old(self).wf(),
        ensures
            final(self).wf(),
            went_to_end(&*old(self), &*final(self)),
    {
        let len = self.display_list.len();
        if len > 0 {
            proof {
                lemma_pages(len as int, self.items_per_page as int, 0);
            }
        }
        self.page = self.num_pages() - 1;
        if len > 0 {
            proof {
                lemma_pages(len as int, self.items_per_page as int, self.page as int);
            }
        }
        let items = self.items_here_exec();
        self.cursor = if items > 0 {
            items - 1
        } else {
            0
        };
    }

    // ── Session toggles ───────────────────────────────────────────────────────

    /// Toggle the hint bar visibility for the current session (not persisted).
    pub fn toggle_hints(&mut self)
        ensures
            hints_toggled(&*old(self), &*final(self)),
    {
        self.show_hints = !self.show_hints;
    }

    /// Navigate to the previous page of the help popup (no-op on first page).
    pub fn help_prev_page(&mut self)
        ensures
            *final(self) == (App {
                help_page: if old(self).help_page > 0 {
                    (old(self).help_page - 1) as usize
                } else {
                    0
                },
                ..*old(self)
            }),
    {
        if self.help_page > 0 {
            self.help_page -= 1;
        }
    }

    /// Navigate to the next page of the help popup (no-op on last page).
    pub fn help_next_page(&mut self)
        ensures
            *final(self) == (App {
                help_page: if old(self).help_page + 1 < old(self).help_total_pages {
                    (old(self).help_page + 1) as usize
                } else {
                    old(self).help_page
                },
                ..*old(self)
            }),
    {
        if self.help_total_pages > 0 && self.help_page < self.help_total_pages - 1 {
            self.help_page += 1;
        }
    }

    // ── Layout ────────────────────────────────────────────────────────────────

    /// Fit the list to a content area `content_height` rows tall: body
    /// lines are capped so that one notification (summary, body, datetime)
    /// fits, a notification takes those rows plus a separator, and as many
    /// notifications as fit make a page (at least one). When the page size
    /// changes, page and cursor are clamped.
    pub fn update_items_per_page(&mut self, content_height: u16)
        requires
            old(self).wf(),
        ensures
            final(self).wf(),
            final(self).effective_body_lines == effective_body_lines_spec(
                old(self).config.display.body_lines as int,
                content_height as int,
            ),
            final(self).rows_per_notif == final(self).effective_body_lines + 3,
            final(self).items_per_page == items_per_page_spec(
                old(self).config.display.body_lines as int,
                content_height as int,
            ),
            final(self).items_per_page == old(self).items_per_page ==> final(self).page
                == old(self).page && final(self).cursor == old(self).cursor,
            final(self).items_per_page != old(self).items_per_page ==> (
            final(self).page as int,
            final(self).cursor as int,
            ) == clamp_spec(
                old(self).display_list@.len() as int,
                final(self).items_per_page as int,
                old(self).page as int,
                old(self).cursor as int,
            ),
            *final(self) == (App {
                items_per_page: final(self).items_per_page,
                rows_per_notif: final(self).rows_per_notif,
                effective_body_lines: final(self).effective_body_lines,
                page: final(self).page,
                cursor: final(self).cursor,
                ..*old(self)
            }),
    {
        let h = content_height as usize;
        let max_body = if h >= 2 {
            h - 2
        } else {
            0
        };
        let bl = self.config.display.body_lines as usize;
        let effective = if bl < max_body {
            bl
        } else {
            max_body
        };
        self.effective_body_lines = effective;
        let rows = effective + 3;
        self.rows_per_notif = rows;
        let fit = (h + 1) / rows;
        let new_count = if fit > 1 {
            fit
        } else {
            1
        };
        if new_count != self.items_per_page {
            self.items_per_page = new_count;
            self.clamp_cursor();
        }
    }
}

/// Body lines shown per notification in a content area `h` rows tall: the
/// configured number, at most `h - 2`.
pub open spec fn effective_body_lines_spec(body_lines: int, h: int) -> int {
    let max_body = if h >= 2 {
        h - 2
    } else {
        0
    };
    if body_lines < max_body {
        body_lines
    } else {
        max_body
    }
}

/// Notifications per page in a content area `h` rows tall: `(h + 1)` divided
/// by the rows of one notification and its separator, at least one.
pub open spec fn items_per_page_spec(body_lines: int, h: int) -> int {
    let fit = (h + 1) / (effective_body_lines_spec(body_lines, h) + 3);
    if fit > 1 {
        fit
    } else {
        1
    }
}

/// The selection after the notification at `idx` is removed: `idx` leaves
/// it and the indices above `idx` move down by one.
pub open spec fn shift_selection(sel: Set<usize>, idx: usize) -> Set<usize> {
    Set::new(
        |j: usize|
            (j < idx && sel.contains(j)) || (idx <= j < usize::MAX && sel.contains((j + 1) as usize)),
    )
}

/// The selection with `idx` toggled.
pub open spec fn toggle_spec(sel: Set<usize>, idx: usize) -> Set<usize> {
    if sel.contains(idx) {
        sel.remove(idx)
    } else {
        sel.insert(idx)
    }
}

/// The elements of `s`.
pub open spec fn elems(s: Seq<&usize>) -> Set<usize> {
    s.unref().to_set()
}

fn shifted_selection(sel: &HashSet<usize>, idx: usize) -> (r: HashSet<usize>)
    ensures
        r@ == shift_selection(sel@, idx),
{
    let mut out: HashSet<usize> = HashSet::new();
    let ghost mut seen: Set<usize> = Set::empty();
    proof {
        assert(elems(Seq::<&usize>::empty()) =~= Set::<usize>::empty());
        assert(out@ =~= shift_selection(seen, idx));
    }
    for x in it: sel.iter()
        invariant
            seen == elems(it.seq().take(it.index() as int)),
            out@ == shift_selection(seen, idx),
            elems(it.seq()) == sel@,
            it.index() == it.seq().len() ==> seen == sel@,
    {
        let ghost before = seen;
        proof {
            let pre = it.seq().take(it.index() as int);
            assert(it.seq().take(it.index() + 1) =~= pre.push(x));
            assert(elems(pre.push(x)) =~= before.insert(*x)) by {
                assert(pre.push(x).unref() =~= pre.unref().push(*x));
                pre.unref().lemma_push_to_set_commute(*x);
            }
            seen = before.insert(*x);
        }
        let v = *x;
        if v < idx {
            out.insert(v);
        } else if v > idx {
            out.insert(v - 1);
        }
        proof {
            assert(out@ =~= shift_selection(seen, idx));
            assert(it.seq().take(it.seq().len() as int) =~= it.seq());
        }
    }
    out
}

/// `s` without the items whose index (counted from `base`) is in `sel`.
pub open spec fn drop_selected<A>(s: Seq<A>, sel: Set<usize>, base: int) -> Seq<A>
    decreases s.len(),
{
    if s.len() == 0 {
        seq![]
    } else {
        let rest = drop_selected(s.drop_first(), sel, base + 1);
        if sel.contains(base as usize) {
            rest
        } else {
            seq![s[0]] + rest
        }
    }
}

/// The matched positions of a search, or none when it did not match.
pub open spec fn indices_or_empty(o: Option<Seq<usize>>) -> Seq<usize> {
    match o {
        Some(v) => v,
        None => seq![],
    }
}

/// The body as displayed: unchanged when escapes are shown, else with
/// `\n` and `\t` expanded.
pub open spec fn displayed_body(n: NotifView, escape: bool) -> Seq<char> {
    if escape {
        n.3
    } else {
        crate::notification::expand_escapes(n.3)
    }
}

impl App {
    /// Whether the cursor sits on an item (or at 0 on an empty list).
    pub(crate) proof fn lemma_position(&self)
        requires
            self.wf(),
        ensures
            self.display_list@.len() > 0 ==> self.position() < self.display_list@.len(),
            self.display_list@.len() == 0 ==> self.position() == 0,
    {
        let len = self.display_list@.len() as int;
        if len > 0 {
            lemma_pages(len, self.items_per_page as int, self.page as int);
        } else {
            assert(self.page * self.items_per_page == 0) by (nonlinear_arith)
                requires
                    self.page == 0,
            ;
        }
    }

    // ── Filtering ─────────────────────────────────────────────────────────────

    /// Rebuild the displayed list: the indices of the notifications that
    /// pass the filter query (all of them for an empty query), in order;
    /// then clamp page and cursor onto it.
    pub fn update_display_list(&mut self)
        requires
            old(self).items_per_page >= 1,
        ensures
            final(self).wf(),
            final(self).display_list@ == shown_indices(old(self).notifs(), old(self).filter_input@),
            (final(self).page as int, final(self).cursor as int) == clamp_spec(
                final(self).display_list@.len() as int,
                old(self).items_per_page as int,
                old(self).page as int,
                old(self).cursor as int,
            ),
            *final(self) == (App {
                display_list: final(self).display_list,
                page: final(self).page,
                cursor: final(self).cursor,
                ..*old(self)
            }),
    {
        let len = self.all_notifications.len();
        let ghost all = self.notifs();
        let ghost q = self.filter_input@;
        let query_empty = self.filter_input.as_str().is_empty();
        let mut list: Vec<usize> = Vec::new();
        let mut i: usize = 0;
        while i < len
            invariant
                i <= len,
                len == self.all_notifications@.len(),
                all == self.notifs(),
                q == self.filter_input@,
                query_empty == (q.len() == 0),
                list@ == shown_upto(all, q, i as int),
            decreases len - i,
        {
            let pass = if query_empty {
                true
            } else {
                let text = self.all_notifications[i].search_text();
                self.filter.score(self.filter_input.as_str(), text.as_str()).is_some()
            };
            if pass {
                list.push(i);
            }
            i += 1;
        }
        proof {
            lemma_shown_upto_bounds(all, q, len as int);
        }
        self.display_list = list;
        self.clamp_cursor();
    }

    // ── Selection ─────────────────────────────────────────────────────────────

    /// Toggle the multi-selection of the notification under the cursor.
    #[verifier::spinoff_prover]
    pub fn toggle_select_current(&mut self)
        requires
            old(self).wf(),
        ensures
            final(self).wf(),
            selection_toggled(&*old(self), &*final(self)),
    {
        let _dl = self.display_list.len();
        proof {
            self.lemma_position();
        }
        let ghost sel = self.multi_selected@;
        if let Some(idx) = self.cursor_notif_idx() {
            let was = self.multi_selected.remove(&idx);
            if !was {
                self.multi_selected.insert(idx);
            }
            proof {
                assert(self.multi_selected@ =~= toggle_spec(sel, idx));
            }
        }
    }

    // ── Mutations ─────────────────────────────────────────────────────────────

    /// Delete the notification under the cursor, if there is one: it leaves
    /// the list, selected indices above it move down by one, and the
    /// displayed list is rebuilt. Returns whether one was deleted (the
    /// history file is then to be saved).
    pub fn remove_current_notification(&mut self) -> (removed: bool)
        requires
            old(self).wf(),
        ensures
            final(self).wf(),
            current_removed(&*old(self), &*final(self), removed),
    {
        let _dl = self.display_list.len();
        proof {
            self.lemma_position();
        }
        match self.cursor_notif_idx() {
            Some(notif_idx) => {
                self.all_notifications.remove(notif_idx);
                let updated = shifted_selection(&self.multi_selected, notif_idx);
                self.multi_selected = updated;
                self.update_display_list();
                true
            },
            None => false,
        }
    }

    /// Delete every notification and the whole selection; the list is
    /// rebuilt and the view goes back to the start.
    pub fn clear_all_notifications(&mut self)
        requires
            old(self).wf(),
        ensures
            final(self).wf(),
            all_cleared(&*old(self), &*final(self)),
    {
        self.all_notifications.clear();
        self.multi_selected.clear();
        self.update_display_list();
        self.page = 0;
        self.cursor = 0;
    }

    /// Delete every selected notification and clear the selection; the
    /// list is rebuilt. Every selected index must point at a notification
    /// (deleting a missing one panics).
    pub fn clear_selected_notifications(&mut self)
        requires
            old(self).wf(),
            forall|i: usize| old(self).multi_selected@.contains(i) ==> i < old(self).all_notifications@.len(),
        ensures
            final(self).wf(),
            selected_cleared(&*old(self), &*final(self)),
    {
        let ghost orig = self.all_notifications@;
        let ghost start = *self;
        let ghost sel = self.multi_selected@;
        let mut i = self.all_notifications.len();
        proof {
            assert(orig.take(i as int) =~= orig);
            assert(orig.skip(i as int) =~= Seq::<Notification>::empty());
            assert(orig.take(i as int) + drop_selected(orig.skip(i as int), sel, i as int) =~= orig);
        }
        // Remove in descending order so earlier indices stay valid.
        while i > 0
            invariant
                i <= orig.len(),
                sel == self.multi_selected@,
                self.items_per_page >= 1,
                start == *old(self),
                *self == (App { all_notifications: self.all_notifications, ..start }),
                self.all_notifications@ == orig.take(i as int) + drop_selected(
                    orig.skip(i as int),
                    sel,
                    i as int,
                ),
            decreases i,
        {
            i -= 1;
            let ghost tail = drop_selected(orig.skip(i + 1), sel, i + 1);
            proof {
                assert(orig.skip(i as int).drop_first() =~= orig.skip(i + 1));
                assert(orig.skip(i as int)[0] == orig[i as int]);
                assert(orig.take(i + 1) =~= orig.take(i as int).push(orig[i as int]));
            }
            if self.multi_selected.contains(&i) {
                self.all_notifications.remove(i);
                proof {
                    assert(self.all_notifications@ =~= orig.take(i as int) + tail);
                }
            } else {
                proof {
                    assert(self.all_notifications@ =~= orig.take(i as int) + (seq![orig[i as int]]
                        + tail));
                }
            }
        }
        proof {
            assert(orig.take(0) =~= Seq::<Notification>::empty());
            assert(orig.skip(0) =~= orig);
            assert(self.all_notifications@ =~= drop_selected(orig, sel, 0));
        }
        self.multi_selected.clear();
        self.update_display_list();
    }

    // ── The history file ──────────────────────────────────────────────────────

    /// Replace the notifications with those read from the history file's
    /// content and rebuild the displayed list. The selection is kept as it
    /// is.
    pub fn load_notifications(&mut self, content: &str)
        requires
            old(self).wf(),
            history_fits(content@),
        ensures
            final(self).wf(),
            final(self).notifs() == spec_parse_history(content@),
            final(self).display_list@ == shown_indices(final(self).notifs(), old(self).filter_input@),
            (final(self).page as int, final(self).cursor as int) == clamp_spec(
                final(self).display_list@.len() as int,
                old(self).items_per_page as int,
                old(self).page as int,
                old(self).cursor as int,
            ),
            *final(self) == (App {
                all_notifications: final(self).all_notifications,
                display_list: final(self).display_list,
                page: final(self).page,
                cursor: final(self).cursor,
                ..*old(self)
            }),
    {
        self.all_notifications = parse_history(content);
        self.update_display_list();
    }

    /// The content to write to the history file: one line per notification.
    pub fn history_content(&self) -> (r: String)
        ensures
            r@ == spec_history_content(self.notifs()),
    {
        history_content(&self.all_notifications)
    }

    // ── Fuzzy-match highlight indices ─────────────────────────────────────────

    /// The positions the filter query matches in the summary, the app name
    /// and each displayed body line of a notification; none at all when
    /// there is no query.
    pub fn get_match_indices(&self, notif_idx: usize) -> (r: NotifMatchIndices)
        requires
            self.filter_input@.len() > 0 ==> notif_idx < self.all_notifications@.len(),
        ensures
            self.filter_input@.len() == 0 ==> r.summary@.len() == 0 && r.app_name@.len() == 0
                && r.body_per_line@.len() == 0,
            self.filter_input@.len() > 0 ==> {
                let n = self.notifs()[notif_idx as int];
                let q = self.filter_input@;
                let lines = crate::text::spec_lines(
                    displayed_body(n, self.config.display.escape_body),
                );
                &&& r.summary@ == indices_or_empty(skim_indices(n.2, q))
                &&& r.app_name@ == indices_or_empty(skim_indices(n.1, q))
                &&& r.body_per_line@.len() == lines.len()
                &&& forall|i: int|
                    0 <= i < lines.len() ==> #[trigger] r.body_per_line@[i]@ == indices_or_empty(
                        skim_indices(lines[i], q),
                    )
            },
    {
        if self.filter_input.as_str().is_empty() {
            return NotifMatchIndices::default();
        }
        let notif = &self.all_notifications[notif_idx];
        let q = self.filter_input.as_str();
        let body = notif.display_body(self.config.display.escape_body);
        let lines = crate::text::split_lines(body.as_str());
        let ghost ls = crate::text::spec_lines(body@);
        let mut body_lines: Vec<Vec<usize>> = Vec::new();
        let mut i: usize = 0;
        while i < lines.len()
            invariant
                i <= lines.len(),
                crate::text::views(lines@) == ls,
                body_lines@.len() == i,
                forall|j: int|
                    0 <= j < i ==> #[trigger] body_lines@[j]@ == indices_or_empty(
                        skim_indices(ls[j], q@),
                    ),
            decreases lines.len() - i,
        {
            proof {
                assert(crate::text::views(lines@)[i as int] == lines@[i as int]@);
            }
            let m = match self.filter.match_indices(q, lines[i].as_str()) {
                Some(v) => v,
                None => Vec::new(),
            };
            body_lines.push(m);
            i += 1;
        }
        let summary = match self.filter.match_indices(q, notif.summary.as_str()) {
            Some(v) => v,
            None => Vec::new(),
        };
        let app_name = match self.filter.match_indices(q, notif.app_name.as_str()) {
            Some(v) => v,
            None => Vec::new(),
        };
        NotifMatchIndices { summary, app_name, body_per_line: body_lines }
    }
}

// ── Keys ──────────────────────────────────────────────────────────────────────

/// A key press, as the viewer tells keys apart.
#[derive(Debug, Clone, Copy, PartialEq, Eq, Structural)]
pub enum Key {
    Char(char),
    F(u8),
    Up,
    Down,
    Left,
    Right,
    PageUp,
    PageDown,
    Esc,
    Enter,
    Backspace,
    Other,
}

/// What the event loop is to do after a key press.
#[derive(Debug, Clone, Copy, PartialEq, Eq, Structural)]
pub enum KeyAction {
    /// Draw and wait for the next key.
    Continue,
    /// Leave the viewer.
    Quit,
    /// Read the history file again (`load_notifications`).
    Reload,
    /// Write the history file (`history_content`).
    Save,
}

/// The cursor position after moving down on a list of `len` items.
pub open spec fn down_position(len: int, pos: int) -> int {
    if pos + 1 < len {
        pos + 1
    } else {
        pos
    }
}

/// The cursor position after moving up.
pub open spec fn up_position(pos: int) -> int {
    if pos > 0 {
        pos - 1
    } else {
        0
    }
}

/// Moving down and then up comes back to the same item, unless the cursor
/// was on the last one.
pub proof fn lemma_down_then_up(len: int, pos: int)
    requires
        0 <= pos,
        pos + 1 < len,
    ensures
        up_position(down_position(len, pos)) == pos,
{
}

/// Moving up and then down comes back to the same item, unless the cursor
/// was on the first one.
pub proof fn lemma_up_then_down(len: int, pos: int)
    requires
        0 < pos < len,
    ensures
        down_position(len, up_position(pos)) == pos,
{
}

/// After a deletion at `idx`, each index in the shifted selection names the
/// same notification as the selected index it came from: the selection
/// follows the notifications, not the positions.
pub proof fn lemma_shift_selection_tracks<A>(all: Seq<A>, sel: Set<usize>, idx: usize, j: usize)
    requires
        idx < all.len(),
        shift_selection(sel, idx).contains(j),
        j < all.len() - 1,
    ensures
        j < idx ==> sel.contains(j) && all.remove(idx as int)[j as int] == all[j as int],
        j >= idx ==> sel.contains((j + 1) as usize) && all.remove(idx as int)[j as int] == all[j + 1],
        !shift_selection(sel, idx).contains(idx) || sel.contains((idx + 1) as usize),
{
}

/// A page of `items_per_page_spec` notifications fits in the content area:
/// `n` notifications of `rows` rows each, the last without a separator,
/// take at most `h` rows, unless not even one fits.
pub proof fn lemma_page_fits(body_lines: int, h: int)
    requires
        0 <= body_lines,
        0 <= h,
    ensures
        ({
            let rows = effective_body_lines_spec(body_lines, h) + 3;
            let n = items_per_page_spec(body_lines, h);
            (h + 1) / rows >= 1 ==> n * rows - 1 <= h
        }),
{
    let rows = effective_body_lines_spec(body_lines, h) + 3;
    let fit = (h + 1) / rows;
    assert(fit * rows <= h + 1) by (nonlinear_arith)
        requires
            rows >= 3,
            h >= 0,
            fit == (h + 1) / rows,
    ;
}

impl App {
    /// Keys in normal mode: `q` quits; `r` reloads; `c` asks to clear all;
    /// `x` deletes the current notification; `g`/`G` go to start/end; `/`
    /// opens the filter; `s` toggles selection; `S` asks to clear the
    /// selection when there is one; `?` opens help; F1 toggles the hint
    /// bar; arrows, `hjkl` and page keys move.
    fn handle_normal(&mut self, key: Key) -> (r: KeyAction)
        requires
            old(self).wf(),
            old(self).mode == Mode::Normal,
        ensures
            final(self).wf(),
            r == normal_action(key, old(self).multi_selected@.is_empty(), old(self).position() < old(self).display_list@.len()),
            normal_step(key, &*old(self), &*final(self)),
    {
        match key {
            Key::Char('q') => KeyAction::Quit,
            Key::Char('r') => KeyAction::Reload,
            Key::Char('c') => {
                self.mode = Mode::ConfirmClearAll;
                KeyAction::Continue
            },
            Key::Char('x') => {
                if self.remove_current_notification() {
                    KeyAction::Save
                } else {
                    KeyAction::Continue
                }
            },
            Key::Char('g') => {
                self.go_to_start();
                KeyAction::Continue
            },
            Key::Char('G') => {
                self.go_to_end();
                KeyAction::Continue
            },
            Key::Char('/') => {
                self.mode = Mode::Filter;
                KeyAction::Continue
            },
            Key::Char('s') => {
                self.toggle_select_current();
                KeyAction::Continue
            },
            Key::Char('S') => {
                if !self.multi_selected.is_empty() {
                    self.mode = Mode::ConfirmClearSelected;
                }
                KeyAction::Continue
            },
            Key::Char('?') => {
                self.mode = Mode::Help;
                KeyAction::Continue
            },
            Key::F(1) => {
                self.toggle_hints();
                KeyAction::Continue
            },
            Key::Up | Key::Char('k') => {
                self.move_up();
                KeyAction::Continue
            },
            Key::Down | Key::Char('j') => {
                self.move_down();
                KeyAction::Continue
            },
            Key::Left | Key::Char('h') | Key::PageUp => {
                self.prev_page();
                KeyAction::Continue
            },
            Key::Right | Key::Char('l') | Key::PageDown => {
                self.next_page();
                KeyAction::Continue
            },
            _ => KeyAction::Continue,
        }
    }

    /// Keys in filter mode: Esc clears the query and leaves, Enter keeps
    /// it and leaves, Backspace deletes its last character, a character is
    /// added to it; the displayed list follows the query.
    fn handle_filter(&mut self, key: Key)
        requires
            old(self).wf(),
        ensures
            final(self).wf(),
            filter_step(key, &*old(self), &*final(self)),
    {
        match key {
            Key::Esc => {
                self.filter_input = String::new();
                self.update_display_list();
                self.mode = Mode::Normal;
            },
            Key::Enter => {
                self.mode = Mode::Normal;
            },
            Key::Backspace => {
                self.filter_input.pop();
                self.update_display_list();
            },
            Key::Char(c) => {
                self.filter_input.push(c);
                self.update_display_list();
            },
            _ => {},
        }
    }

    /// Keys in a confirm dialog: `y` or Enter clears (the selection when
    /// `is_selected`, else everything) and leaves; `n` or Esc leaves.
    fn handle_confirm(&mut self, key: Key, is_selected: bool) -> (r: KeyAction)
        requires
            old(self).wf(),
            is_selected ==> forall|i: usize|
                old(self).multi_selected@.contains(i) ==> i < old(self).all_notifications@.len(),
        ensures
            final(self).wf(),
            r == if key == Key::Char('y') || key == Key::Enter {
                KeyAction::Save
            } else {
                KeyAction::Continue
            },
            confirm_step(key, is_selected, &*old(self), &*final(self)),
    {
        match key {
            Key::Char('y') | Key::Enter => {
                if is_selected {
                    self.clear_selected_notifications();
                } else {
                    self.clear_all_notifications();
                }
                self.mode = Mode::Normal;
                KeyAction::Save
            },
            Key::Char('n') | Key::Esc => {
                self.mode = Mode::Normal;
                KeyAction::Continue
            },
            _ => KeyAction::Continue,
        }
    }

    /// Keys in the help popup: Esc, `q` or `?` close it.
    fn handle_help(&mut self, key: Key)
        requires
            old(self).wf(),
        ensures
            final(self).wf(),
            help_step(key, &*old(self), &*final(self)),
    {
        match key {
            Key::Esc | Key::Char('q') | Key::Char('?') => {
                self.mode = Mode::Normal;
            },
            _ => {},
        }
    }

    /// Dispatch a key press according to the mode, and say what the event
    /// loop is to do next. A confirmed "clear selected" needs every
    /// selected index to point at a notification (see
    /// `selection_in_range`).
    pub fn handle_key(&mut self, key: Key) -> (r: KeyAction)
        requires
            old(self).wf(),
            old(self).mode == Mode::ConfirmClearSelected ==> forall|i: usize|
                old(self).multi_selected@.contains(i) ==> i < old(self).all_notifications@.len(),
        ensures
            final(self).wf(),
            old(self).mode == Mode::Normal ==> r == normal_action(
                key,
                old(self).multi_selected@.is_empty(),
                old(self).position() < old(self).display_list@.len(),
            ),
            old(self).mode != Mode::Normal ==> (r == KeyAction::Save <==> (old(self).mode
                == Mode::ConfirmClearAll || old(self).mode == Mode::ConfirmClearSelected) && (key
                == Key::Char('y') || key == Key::Enter)),
            old(self).mode != Mode::Normal ==> r != KeyAction::Quit && r != KeyAction::Reload,
            old(self).mode == Mode::Normal ==> normal_step(key, &*old(self), &*final(self)),
            old(self).mode == Mode::Filter ==> filter_step(key, &*old(self), &*final(self)),
            old(self).mode == Mode::ConfirmClearAll ==> confirm_step(
                key,
                false,
                &*old(self),
                &*final(self),
            ),
            old(self).mode == Mode::ConfirmClearSelected ==> confirm_step(
                key,
                true,
                &*old(self),
                &*final(self),
            ),
            old(self).mode == Mode::Help ==> help_step(key, &*old(self), &*final(self)),
    {
        match self.mode {
            Mode::Normal => self.handle_normal(key),
            Mode::Filter => {
                self.handle_filter(key);
                KeyAction::Continue
            },
            Mode::ConfirmClearAll => self.handle_confirm(key, false),
            Mode::ConfirmClearSelected => self.handle_confirm(key, true),
            Mode::Help => {
                self.handle_help(key);
                KeyAction::Continue
            },
        }
    }

    /// Whether every selected index points at a notification, as clearing
    /// the selection needs.
    pub fn selection_in_range(&self) -> (r: bool)
        ensures
            r == forall|i: usize|
                self.multi_selected@.contains(i) ==> i < self.all_notifications@.len(),
    {
        let len = self.all_notifications.len();
        let mut ok = true;
        let ghost mut seen: Set<usize> = Set::empty();
        for x in it: self.multi_selected.iter()
            invariant
                seen == elems(it.seq().take(it.index() as int)),
                elems(it.seq()) == self.multi_selected@,
                it.index() == it.seq().len() ==> seen == self.multi_selected@,
                len == self.all_notifications@.len(),
                ok == forall|i: usize| seen.contains(i) ==> i < len,
        {
            let ghost prev = seen;
            proof {
                let pre = it.seq().take(it.index() as int);
                assert(it.seq().take(it.index() + 1) =~= pre.push(x));
                assert(elems(pre.push(x)) =~= seen.insert(*x)) by {
                    assert(pre.push(x).unref() =~= pre.unref().push(*x));
                    pre.unref().lemma_push_to_set_commute(*x);
                }
                seen = seen.insert(*x);
                assert(it.seq().take(it.seq().len() as int) =~= it.seq());
            }
            let ghost before_ok = ok;
            if *x >= len {
                ok = false;
                proof {
                    assert(seen.contains(*x));
                }
            }
            proof {
                if ok {
                    assert forall|i: usize| seen.contains(i) implies i < len by {
                        if i != *x {
                            assert(prev.contains(i));
                        }
                    }
                } else if before_ok == false {
                    let w = choose|i: usize| prev.contains(i) && i >= len;
                    assert(seen.contains(w));
                }
            }
        }
        ok
    }
}

/// What a key does in normal mode.
pub open spec fn normal_action(key: Key, selection_empty: bool, on_item: bool) -> KeyAction {
    match key {
        Key::Char('q') => KeyAction::Quit,
        Key::Char('r') => KeyAction::Reload,
        Key::Char('x') => if on_item {
            KeyAction::Save
        } else {
            KeyAction::Continue
        },
        _ => KeyAction::Continue,
    }
}

/// What a key does to the viewer in normal mode: `q` and `r` change
/// nothing (the caller quits or reloads); `c`, `/` and `?` only change the
/// mode; `S` asks to clear the selection when there is one and changes
/// nothing else; the other keys act as the methods they name; any other key
/// changes nothing.
pub open spec fn normal_step(key: Key, a: &App, b: &App) -> bool {
    match key {
        Key::Char('q') | Key::Char('r') => *b == *a,
        Key::Char('c') => *b == (App { mode: Mode::ConfirmClearAll, ..*a }),
        Key::Char('x') => current_removed(a, b, a.position() < a.display_list@.len()),
        Key::Char('g') => went_to_start(a, b),
        Key::Char('G') => went_to_end(a, b),
        Key::Char('/') => *b == (App { mode: Mode::Filter, ..*a }),
        Key::Char('s') => selection_toggled(a, b),
        Key::Char('S') => *b == (App {
            mode: if a.multi_selected@.is_empty() {
                Mode::Normal
            } else {
                Mode::ConfirmClearSelected
            },
            ..*a
        }),
        Key::Char('?') => *b == (App { mode: Mode::Help, ..*a }),
        Key::F(1) => hints_toggled(a, b),
        Key::Up | Key::Char('k') => moved_up(a, b),
        Key::Down | Key::Char('j') => moved_down(a, b),
        Key::Left | Key::Char('h') | Key::PageUp => paged_back(a, b),
        Key::Right | Key::Char('l') | Key::PageDown => paged_on(a, b),
        _ => *b == *a,
    }
}

/// `b` is `a` with the query `q`, the displayed list rebuilt for it, page
/// and cursor clamped onto that list, and the mode `mode`.
pub open spec fn refiltered(a: &App, b: &App, q: Seq<char>, mode: Mode) -> bool {
    &&& b.filter_input@ == q
    &&& b.display_list@ == shown_indices(a.notifs(), q)
    &&& (b.page as int, b.cursor as int) == clamp_spec(
        b.display_list@.len() as int,
        a.items_per_page as int,
        a.page as int,
        a.cursor as int,
    )
    &&& *b == (App {
        filter_input: b.filter_input,
        display_list: b.display_list,
        page: b.page,
        cursor: b.cursor,
        mode,
        ..*a
    })
}

/// What a key does in filter mode: Esc clears the query and leaves, Enter
/// keeps everything and leaves, Backspace deletes the query's last
/// character, a character is added to it (the list following the query);
/// any other key changes nothing.
pub open spec fn filter_step(key: Key, a: &App, b: &App) -> bool {
    match key {
        Key::Esc => refiltered(a, b, Seq::<char>::empty(), Mode::Normal),
        Key::Enter => *b == (App { mode: Mode::Normal, ..*a }),
        Key::Backspace => refiltered(
            a,
            b,
            if a.filter_input@.len() > 0 {
                a.filter_input@.drop_last()
            } else {
                a.filter_input@
            },
            a.mode,
        ),
        Key::Char(c) => refiltered(a, b, a.filter_input@.push(c), a.mode),
        _ => *b == *a,
    }
}

/// What a key does in a confirmation: `y` or Enter clears (the selection
/// when `is_selected`, else everything) and leaves; `n` or Esc only
/// leaves; any other key changes nothing.
pub open spec fn confirm_step(key: Key, is_selected: bool, a: &App, b: &App) -> bool {
    if key == Key::Char('y') || key == Key::Enter {
        &&& b.mode == Mode::Normal
        &&& if is_selected {
            selected_cleared(a, &(App { mode: a.mode, ..*b }))
        } else {
            all_cleared(a, &(App { mode: a.mode, ..*b }))
        }
    } else if key == Key::Char('n') || key == Key::Esc {
        *b == (App { mode: Mode::Normal, ..*a })
    } else {
        *b == *a
    }
}

/// What a key does in the help box: Esc, `q` or `?` close it; any other
/// key changes nothing.
pub open spec fn help_step(key: Key, a: &App, b: &App) -> bool {
    if key == Key::Esc || key == Key::Char('q') || key == Key::Char('?') {
        *b == (App { mode: Mode::Normal, ..*a })
    } else {
        *b == *a
    }
}

/// Clamping leaves a page and cursor that already point at an item (both
/// 0 on an empty list) as they are.
pub proof fn lemma_clamp_in_range(len: int, ipp: int, page: int, cursor: int)
    requires
        len >= 0,
        ipp >= 1,
        page >= 0,
        cursor >= 0,
        cursor_ok(len, ipp, page, cursor),
    ensures
        clamp_spec(len, ipp, page, cursor) == (page, cursor),
{
    if len > 0 {
        lemma_pages(len, ipp, page);
    }
}

/// The items on the first `k` pages.
pub open spec fn items_upto(len: int, ipp: int, k: int) -> int
    decreases k,
{
    if k <= 0 {
        0
    } else {
        items_upto(len, ipp, k - 1) + items_on_page_spec(len, ipp, k - 1)
    }
}

proof fn lemma_items_upto(len: int, ipp: int, k: int)
    requires
        len > 0,
        ipp >= 1,
        0 <= k <= num_pages_spec(len, ipp),
    ensures
        items_upto(len, ipp, k) == if k * ipp < len {
            k * ipp
        } else {
            len
        },
    decreases k,
{
    if k > 0 {
        lemma_items_upto(len, ipp, k - 1);
        lemma_pages(len, ipp, k - 1);
        lemma_pages(len, ipp, k);
        assert(k * ipp == (k - 1) * ipp + ipp) by (nonlinear_arith);
    } else {
        assert(k * ipp == 0) by (nonlinear_arith)
            requires
                k == 0,
        ;
    }
}

/// The pages share the list out exactly: the items on all pages together
/// (`items_on_current_page` on each page that `num_pages` counts) are as
/// many as the list holds, and on a list that is not empty no page is
/// empty.
pub proof fn lemma_pages_cover(len: int, ipp: int)
    requires
        len >= 0,
        ipp >= 1,
    ensures
        items_upto(len, ipp, num_pages_spec(len, ipp)) == len,
        len > 0 ==> forall|p: int|
            0 <= p < num_pages_spec(len, ipp) ==> #[trigger] items_on_page_spec(len, ipp, p) >= 1,
{
    if len > 0 {
        let n = num_pages_spec(len, ipp);
        lemma_pages(len, ipp, n);
        lemma_items_upto(len, ipp, n);
        assert forall|p: int| 0 <= p < num_pages_spec(len, ipp) implies #[trigger] items_on_page_spec(
            len,
            ipp,
            p,
        ) >= 1 by {
            lemma_pages(len, ipp, p);
        }
    } else {
        assert(items_upto(len, ipp, 1) == items_upto(len, ipp, 0) + items_on_page_spec(len, ipp, 0));
    }
}

/// Clamping a page and cursor onto a list of `len` items, `ipp` to a page:
/// on an empty list both become 0; otherwise a page that holds items is
/// kept and a page past the end becomes the last page,
/// `ceil(len / ipp) - 1`; the cursor is kept when that page has an item at
/// it and otherwise goes to the page's last item, so the result always
/// points at an item.
pub proof fn lemma_clamp_moves_to_last_page(len: int, ipp: int, page: int, cursor: int)
    requires
        len >= 0,
        ipp >= 1,
        page >= 0,
        cursor >= 0,
    ensures
        len == 0 ==> clamp_spec(len, ipp, page, cursor) == (0int, 0int),
        len > 0 && page * ipp < len ==> clamp_spec(len, ipp, page, cursor).0 == page,
        len > 0 && page * ipp >= len ==> clamp_spec(len, ipp, page, cursor).0 == (len + ipp - 1)
            / ipp - 1,
        len > 0 ==> ({
            let (p, c) = clamp_spec(len, ipp, page, cursor);
            let items = items_on_page_spec(len, ipp, p);
            &&& c == if cursor < items {
                cursor
            } else {
                items - 1
            }
            &&& p * ipp + c < len
        }),
        cursor_ok(
            len,
            ipp,
            clamp_spec(len, ipp, page, cursor).0,
            clamp_spec(len, ipp, page, cursor).1,
        ),
{
    if len > 0 {
        let n = num_pages_spec(len, ipp);
        lemma_pages(len, ipp, page);
        lemma_pages(len, ipp, n - 1);
        let q = len / ipp;
        let r = len % ipp;
        assert(len == q * ipp + r && 0 <= r < ipp) by (nonlinear_arith)
            requires
                ipp >= 1,
                q == len / ipp,
                r == len % ipp,
        ;
        if r == 0 {
            assert((len + ipp - 1) / ipp == q) by (nonlinear_arith)
                requires
                    ipp >= 1,
                    len == q * ipp,
            ;
        } else {
            assert((len + ipp - 1) / ipp == q + 1) by (nonlinear_arith)
                requires
                    ipp >= 1,
                    len == q * ipp + r,
                    1 <= r < ipp,
            ;
        }
        let (p, c) = clamp_spec(len, ipp, page, cursor);
        lemma_pages(len, ipp, p);
    }
}

/// Removing the notification at `idx` keeps each other selected
/// notification selected under its new index (the same below `idx`, one
/// less above it), and selects nothing that was not selected before.
pub proof fn lemma_shift_keeps_selection(sel: Set<usize>, idx: usize)
    ensures
        forall|j: usize|
            j < idx && #[trigger] sel.contains(j) ==> shift_selection(sel, idx).contains(j),
        forall|j: usize|
            j > idx && #[trigger] sel.contains(j) ==> shift_selection(sel, idx).contains(
                (j - 1) as usize,
            ),
        !shift_selection(sel, idx).contains(usize::MAX),
        forall|j: usize| #[trigger]
            shift_selection(sel, idx).contains(j) ==> if j < idx {
                sel.contains(j)
            } else {
                j < usize::MAX && sel.contains((j + 1) as usize)
            },
{
    assert forall|j: usize| j > idx && #[trigger] sel.contains(j) implies shift_selection(
        sel,
        idx,
    ).contains((j - 1) as usize) by {
        let k = (j - 1) as usize;
        assert(((k + 1) as usize) == j);
    }
}

/// The filter searches the summary, the app name and the body: a
/// notification passes a query exactly when the query matches the text
/// that `Notification::search_text` returns (the three joined by single
/// spaces), and so whenever the query matches any one of the three.
pub proof fn lemma_filter_searches_every_field(n: NotifView, q: Seq<char>)
    ensures
        passes_filter(n, q) == (q.len() == 0 || fuzzy_accepts(
            n.2 + seq![' '] + n.1 + seq![' '] + n.3,
            q,
        )),
        fuzzy_accepts(n.2, q) ==> passes_filter(n, q),
        fuzzy_accepts(n.1, q) ==> passes_filter(n, q),
        fuzzy_accepts(n.3, q) ==> passes_filter(n, q),
{
    let cs = exists|i: int| 0 <= i < q.len() && crate::filter::is_ascii_upper(#[trigger] q[i]);
    let t = n.2 + seq![' '] + n.1 + seq![' '] + n.3;
    assert(search_text_spec(n) == t);
    if fuzzy_accepts(n.2, q) {
        crate::filter::lemma_subsequence_before(n.2, seq![' '] + n.1 + seq![' '] + n.3, q, cs);
        assert(n.2 + (seq![' '] + n.1 + seq![' '] + n.3) =~= t);
    }
    if fuzzy_accepts(n.1, q) {
        crate::filter::lemma_subsequence_before(n.1, seq![' '] + n.3, q, cs);
        crate::filter::lemma_subsequence_after(n.2 + seq![' '], n.1 + (seq![' '] + n.3), q, cs);
        assert((n.2 + seq![' ']) + (n.1 + (seq![' '] + n.3)) =~= t);
    }
    if fuzzy_accepts(n.3, q) {
        crate::filter::lemma_subsequence_after(n.2 + seq![' '] + n.1 + seq![' '], n.3, q, cs);
    }
}

} // verus!
