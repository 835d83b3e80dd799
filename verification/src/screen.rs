//! The screen as a whole: which rows it is split into, how the list is
//! fitted to its area, and which box, if any, is drawn over it.
use ratatui::layout::{Constraint, Layout, Rect};
use vstd::prelude::*;

use crate::app::{clamp_spec, effective_body_lines_spec, items_per_page_spec, App, Mode};
use crate::layout::{count_label_spec, count_row, dots_line, dots_line_spec, opt_row_view, DotsLine, Row, Tone};
use crate::popup::{confirm_popup, confirm_popup_spec, help_layout, help_popup_spec, Popup};

verus! {

/// An area of the terminal: column, row, width, height.
pub type Area = (u16, u16, u16, u16);

/// The height asked of a row of the screen: a fixed number of rows, or a
/// share of what is left.
#[derive(Debug, Clone, Copy, PartialEq, Eq, Structural)]
pub enum RowSize {
    Length(u16),
    Fill(u16),
}

/// The areas `ratatui`'s vertical layout gives rows of these heights in
/// `area`.
pub uninterp spec fn vertical_split(area: Area, sizes: Seq<RowSize>) -> Seq<Area>;

/// `Layout::vertical(constraints).split(area)` with a `Length` or `Fill`
/// constraint for each size. Its result is named by `vertical_split`; the
/// source shows one area per constraint, in order.
#[verifier::external_body]
fn split_rows(area: Area, sizes: &Vec<RowSize>) -> (r: Vec<Area>)
    ensures
        r@ == vertical_split(area, sizes@),
        r@.len() == sizes@.len(),
{
    let constraints: Vec<Constraint> = sizes.iter().map(|s| match *s {
        RowSize::Length(n) => Constraint::Length(n),
        RowSize::Fill(n) => Constraint::Fill(n),
    }).collect();
    let rects = Layout::vertical(constraints).split(Rect::new(area.0, area.1, area.2, area.3));
    rects.iter().map(|r| (r.x, r.y, r.width, r.height)).collect()
}

/// The rows of the screen: header, count bar, a blank row, the list
/// (taking what is left), the filter bar while filtering, the page dots,
/// and the hint bar when it is shown.
pub open spec fn screen_sizes(in_filter: bool, hints: bool) -> Seq<RowSize> {
    seq![RowSize::Length(1), RowSize::Length(1), RowSize::Length(1), RowSize::Fill(1)] + (if in_filter {
        seq![RowSize::Length(1)]
    } else {
        seq![]
    }) + seq![RowSize::Length(1)] + if hints {
        seq![RowSize::Length(1)]
    } else {
        seq![]
    }
}

/// Where each part of the screen goes.
pub struct ScreenPlan {
    pub header: Area,
    pub count: Area,
    pub content: Area,
    pub filter: Option<Area>,
    pub dots: Area,
    pub hints: Option<Area>,
}

/// The box drawn over the list, if any.
pub enum Overlay {
    Nothing,
    Confirm(String),
    Help,
}

/// The question asked before clearing, for each confirmation mode.
pub open spec fn confirm_message(mode: Mode) -> Option<Seq<char>> {
    match mode {
        Mode::ConfirmClearAll => Some("Clear ALL notifications?"@),
        Mode::ConfirmClearSelected => Some("Clear SELECTED notifications?"@),
        _ => None,
    }
}

/// The box for `mode`: a confirmation question, the help, or none.
pub fn overlay_for(mode: Mode) -> (r: Overlay)
    ensures
        match r {
            Overlay::Confirm(m) => confirm_message(mode) == Some(m@),
            Overlay::Help => mode == Mode::Help,
            Overlay::Nothing => confirm_message(mode) is None && mode != Mode::Help,
        },
{
    match mode {
        Mode::ConfirmClearAll => Overlay::Confirm("Clear ALL notifications?".to_owned()),
        Mode::ConfirmClearSelected => Overlay::Confirm("Clear SELECTED notifications?".to_owned()),
        Mode::Help => Overlay::Help,
        _ => Overlay::Nothing,
    }
}

/// The confirmation box for `mode` over `area`, if `mode` asks one.
pub fn confirm_box(mode: Mode, area: Area) -> (r: Option<Popup>)
    requires
        area.0 + area.2 <= u16::MAX,
        area.1 + area.3 <= u16::MAX,
    ensures
        match confirm_message(mode) {
            None => r is None,
            Some(m) => match r {
                Some(p) => confirm_popup_spec(
                    area.0 as int,
                    area.1 as int,
                    area.2 as int,
                    area.3 as int,
                    m,
                ) == Some(p@),
                None => confirm_popup_spec(
                    area.0 as int,
                    area.1 as int,
                    area.2 as int,
                    area.3 as int,
                    m,
                ) is None,
            },
        },
{
    match overlay_for(mode) {
        Overlay::Confirm(m) => confirm_popup(area.0, area.1, area.2, area.3, m.as_str()),
        _ => None,
    }
}

impl App {
    /// Split `area` into the parts of the screen and fit the list to its
    /// part: body lines and page size follow the list's height, page and
    /// cursor clamped when the page size changes; nothing else changes.
    pub fn plan_screen(&mut self, area: Area) -> (r: ScreenPlan)
        requires
            old(self).wf(),
        ensures
            final(self).wf(),
            ({
                let f = old(self).mode == Mode::Filter;
                let chunks = vertical_split(area, screen_sizes(f, old(self).show_hints));
                let d = if f {
                    5int
                } else {
                    4int
                };
                &&& r.header == chunks[0]
                &&& r.count == chunks[1]
                &&& r.content == chunks[3]
                &&& r.filter == if f {
                    Some(chunks[4])
                } else {
                    None
                }
                &&& r.dots == chunks[d]
                &&& r.hints == if old(self).show_hints {
                    Some(chunks[d + 1])
                } else {
                    None
                }
                &&& final(self).effective_body_lines == effective_body_lines_spec(
                    old(self).config.display.body_lines as int,
                    chunks[3].3 as int,
                )
                &&& final(self).items_per_page == items_per_page_spec(
                    old(self).config.display.body_lines as int,
                    chunks[3].3 as int,
                )
            }),
            final(self).items_per_page == old(self).items_per_page ==> final(self).page
                == old(self).page && final(self).cursor == old(self).cursor,
            final(self).items_per_page != old(self).items_per_page ==> (
            final(self).page as int,
            final(self).cursor as int,
            ) == clamp_spec(
                old(self).display_list@.len() as int,
                final(self).items_per_page as int,
                old(self).page as int,
                old(self).cursor as int,
            ),
            final(self).rows_per_notif == final(self).effective_body_lines + 3,
            *final(self) == (App {
                items_per_page: final(self).items_per_page,
                rows_per_notif: final(self).rows_per_notif,
                effective_body_lines: final(self).effective_body_lines,
                page: final(self).page,
                cursor: final(self).cursor,
                ..*old(self)
            }),
    {
        let in_filter = self.mode == Mode::Filter;
        let hints = self.show_hints;
        let mut sizes: Vec<RowSize> = Vec::new();
        sizes.push(RowSize::Length(1));
        sizes.push(RowSize::Length(1));
        sizes.push(RowSize::Length(1));
        sizes.push(RowSize::Fill(1));
        if in_filter {
            sizes.push(RowSize::Length(1));
        }
        sizes.push(RowSize::Length(1));
        if hints {
            sizes.push(RowSize::Length(1));
        }
        proof {
            assert(sizes@ =~= screen_sizes(in_filter, hints));
        }
        let chunks = split_rows(area, &sizes);
        let content = chunks[3];
        self.update_items_per_page(content.3);
        let mut idx: usize = 4;
        let filter = if in_filter {
            let a = chunks[idx];
            idx += 1;
            Some(a)
        } else {
            None
        };
        let dots = chunks[idx];
        idx += 1;
        let hint_area = if hints {
            Some(chunks[idx])
        } else {
            None
        };
        ScreenPlan { header: chunks[0], count: chunks[1], content, filter, dots, hints: hint_area }
    }

    /// The count bar on a screen `width` columns wide: how many
    /// notifications there are, or how many of them the filter shows.
    pub fn count_bar(&self, width: u16) -> (r: Row)
        ensures
            r@ == (
                seq![
                    (
                        count_label_spec(
                            width as int,
                            self.display_list@.len(),
                            self.all_notifications@.len(),
                            self.filter_input@.len() > 0,
                        ),
                        Tone::Faint,
                        false,
                    ),
                ],
                Tone::Base,
                false,
            ),
    {
        count_row(
            width,
            self.display_list.len(),
            self.all_notifications.len(),
            !self.filter_input.as_str().is_empty(),
        )
    }

    /// The page dots on a row `width` columns wide, with the `[?]` hint at
    /// its end while the hint bar is hidden.
    pub fn page_dots(&self, width: u16) -> (r: DotsLine)
        requires
            self.items_per_page >= 1,
        ensures
            (r.dots@, r.dots_width as int, opt_row_view(r.hint)) == dots_line_spec(
                self.pages(),
                self.page as int,
                width as int,
                !self.show_hints,
            ),
    {
        dots_line(self.num_pages(), self.page, width, !self.show_hints)
    }

    /// The help box over `area`, recording how many pages the help takes
    /// and bringing the help page back to the last one when it is past it.
    pub fn help_popup(&mut self, area: Area) -> (r: Option<Popup>)
        requires
            area.0 + area.2 <= u16::MAX,
            area.1 + area.3 <= u16::MAX,
        ensures
            ({
                let sp = help_popup_spec(
                    area.0 as int,
                    area.1 as int,
                    area.2 as int,
                    area.3 as int,
                    old(self).help_page as int,
                );
                &&& final(self).help_total_pages == sp.0
                &&& final(self).help_page == sp.1
                &&& match r {
                    Some(p) => sp.2 == Some(p@),
                    None => sp.2 is None,
                }
            }),
            *final(self) == (App {
                help_total_pages: final(self).help_total_pages,
                help_page: final(self).help_page,
                ..*old(self)
            }),
    {
        let layout = help_layout(area.0, area.1, area.2, area.3, self.help_page);
        self.help_total_pages = layout.total_pages;
        self.help_page = layout.page;
        layout.popup
    }
}

} // verus!
