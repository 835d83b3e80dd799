use notify_history::layout::{Row, Tone};
use notify_history::popup::{confirm_popup, help_layout};

fn row_text(r: &Row) -> String {
    r.segs.iter().map(|s| s.text.clone()).collect()
}

#[test]
fn confirm_fits_on_one_line() {
    let p = confirm_popup(0, 0, 80, 24, "Clear ALL notifications?").unwrap();
    assert_eq!((p.x, p.y, p.width, p.height), (13, 10, 54, 3));
    assert_eq!(p.rows.len(), 1);
    assert_eq!(row_text(&p.rows[0]), "Clear ALL notifications? — [y/Enter] Yes  [n/Esc] No");
    assert_eq!(p.rows[0].segs[0].tone, Tone::Text);
}

#[test]
fn confirm_wraps_the_question_above_the_answers() {
    let p = confirm_popup(0, 0, 30, 24, "Clear ALL notifications?").unwrap();
    assert_eq!((p.x, p.y, p.width, p.height), (1, 10, 27, 4));
    let t: Vec<String> = p.rows.iter().map(row_text).collect();
    assert_eq!(t, vec!["Clear ALL notifications?", "[y/Enter] Yes  [n/Esc] No"]);
}

#[test]
fn confirm_puts_each_answer_on_its_own_line_when_narrow() {
    let p = confirm_popup(0, 0, 20, 24, "Clear ALL notifications?").unwrap();
    assert_eq!((p.x, p.y, p.width, p.height), (2, 8, 16, 7));
    let t: Vec<String> = p.rows.iter().map(row_text).collect();
    assert_eq!(
        t,
        vec!["  Clear ALL", "notifications?", "       ", "[y/Enter] Yes", "  [n/Esc] No"]
    );
}

#[test]
fn confirm_keeps_only_the_rows_that_fit() {
    let p = confirm_popup(0, 0, 20, 4, "Clear ALL notifications?").unwrap();
    assert_eq!(p.height, 4);
    assert_eq!(p.rows.len(), 2);
}

#[test]
fn confirm_needs_two_cells_each_way() {
    assert!(confirm_popup(0, 0, 1, 24, "Clear ALL notifications?").is_none());
    assert!(confirm_popup(0, 0, 80, 1, "Clear ALL notifications?").is_none());
}

#[test]
fn confirm_is_placed_relative_to_the_area() {
    let p = confirm_popup(5, 7, 80, 24, "Clear SELECTED notifications?").unwrap();
    assert_eq!(p.width, 59);
    assert_eq!((p.x, p.y), (5 + 10, 7 + 10));
}

#[test]
fn help_fits_on_one_page() {
    let h = help_layout(0, 0, 80, 40, 0);
    assert_eq!(h.total_pages, 1);
    assert_eq!(h.page, 0);
    let p = h.popup.unwrap();
    assert_eq!((p.x, p.y, p.width, p.height), (28, 9, 24, 21));
    assert_eq!(p.rows.len(), 19);
    let first: Vec<String> = p.rows[0].segs.iter().map(|s| s.text.clone()).collect();
    assert_eq!(first, vec![" ", "r", "     ", "Refresh"]);
    assert_eq!(p.rows[0].segs[1].tone, Tone::Accent);
    assert_eq!(row_text(&p.rows[11]), " ↑ / k Move up");
    assert_eq!(row_text(&p.rows[17]), "");
    assert_eq!(row_text(&p.rows[18]), " Esc   Close help");
}

#[test]
fn help_is_paged_with_a_footer() {
    let h = help_layout(0, 0, 80, 10, 0);
    assert_eq!(h.total_pages, 3);
    assert_eq!(h.page, 0);
    let p = h.popup.unwrap();
    assert_eq!((p.y, p.height), (0, 10));
    assert_eq!(p.rows.len(), 8);
    let footer: Vec<String> = p.rows[7].segs.iter().map(|s| s.text.clone()).collect();
    assert_eq!(footer, vec![" ", "     ", "1/3 pages", "      ", "→"]);
}

#[test]
fn help_page_past_the_end_shows_the_last_page() {
    let h = help_layout(0, 0, 80, 10, 5);
    assert_eq!(h.total_pages, 3);
    assert_eq!(h.page, 2);
    let p = h.popup.unwrap();
    assert_eq!((p.y, p.height), (1, 8));
    assert_eq!(p.rows.len(), 6);
    let footer: Vec<String> = p.rows[5].segs.iter().map(|s| s.text.clone()).collect();
    assert_eq!(footer, vec!["←", "     ", "3/3 pages", "      ", " "]);
}

#[test]
fn help_descriptions_wrap_and_truncate_when_narrow() {
    let h = help_layout(0, 0, 12, 40, 0);
    let p = h.popup.unwrap();
    assert_eq!(p.width, 12);
    assert_eq!(row_text(&p.rows[0]), " r     Ref");
    assert_eq!(row_text(&p.rows[1]), " c     Cle");
    assert_eq!(row_text(&p.rows[2]), "       all");
}

#[test]
fn help_needs_room_for_a_box() {
    let h = help_layout(0, 0, 1, 40, 0);
    assert!(h.popup.is_none());
    assert_eq!(h.total_pages, 1);
}
