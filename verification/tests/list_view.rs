use notify_history::app::{App, Mode};
use notify_history::config::Config;
use notify_history::layout::{Row, Tone};
use notify_history::screen::{confirm_box, overlay_for, Overlay};

/// A configuration that shows three body lines per notification.
fn three_line_config() -> Config {
    let mut c = Config::default();
    c.display.body_lines = 3;
    c
}

fn row_text(r: &Row) -> String {
    r.segs.iter().map(|s| s.text.clone()).collect()
}

const HISTORY: &str = "1700000000000[*]Firefox[*]Download done[*]file.zip saved\n\
1700000001000[*]Mail[*]New message[*]Hi there\\nSecond line\n";

fn loaded_app() -> App {
    let mut app = App::new(three_line_config());
    app.load_notifications(HISTORY);
    app.update_items_per_page(19);
    app
}

#[test]
fn plan_screen_splits_rows() {
    let mut app = App::new(three_line_config());
    app.load_notifications(HISTORY);
    let plan = app.plan_screen((0, 0, 80, 24));
    assert_eq!(plan.header, (0, 0, 80, 1));
    assert_eq!(plan.count, (0, 1, 80, 1));
    assert_eq!(plan.content, (0, 3, 80, 19));
    assert_eq!(plan.filter, None);
    assert_eq!(plan.dots, (0, 22, 80, 1));
    assert_eq!(plan.hints, Some((0, 23, 80, 1)));
    assert_eq!(app.items_per_page, 3);
    assert_eq!(app.effective_body_lines, 3);
}

#[test]
fn plan_screen_with_filter_bar_and_no_hints() {
    let mut app = App::new(three_line_config());
    app.load_notifications(HISTORY);
    app.mode = Mode::Filter;
    app.show_hints = false;
    let plan = app.plan_screen((0, 0, 80, 24));
    assert_eq!(plan.content, (0, 3, 80, 19));
    assert_eq!(plan.filter, Some((0, 22, 80, 1)));
    assert_eq!(plan.dots, (0, 23, 80, 1));
    assert_eq!(plan.hints, None);
}

#[test]
fn list_rows_lay_out_each_item() {
    let app = loaded_app();
    let dates = vec!["D0".to_string(), "D1".to_string()];
    let rows = app.list_rows_with_dates(40, &dates);
    assert_eq!(rows.len(), 11);
    let title: Vec<String> = rows[0].segs.iter().map(|s| s.text.clone()).collect();
    assert_eq!(title[0], "│ ");
    assert_eq!(title[1], "Download done");
    assert_eq!(title[2], " — ");
    assert_eq!(title[3], "Firefox");
    assert_eq!(title[4], " ".repeat(15));
    assert!(rows[0].lit);
    assert_eq!(rows[0].segs[3].tone, Tone::Accent);
    assert_eq!(row_text(&rows[1]), format!("│  file.zip saved{}", " ".repeat(23)));
    assert_eq!(row_text(&rows[2]), format!("│  {}", " ".repeat(37)));
    assert_eq!(row_text(&rows[4]), format!("│  D0{}", " ".repeat(35)));
    assert_eq!(rows[4].tone, Tone::Faint);
    assert_eq!(row_text(&rows[5]), "─".repeat(40));
    assert_eq!(rows[5].segs[0].tone, Tone::Rule);
    assert_eq!(row_text(&rows[6]), "  New message — Mail");
    assert!(!rows[6].lit);
    assert_eq!(row_text(&rows[7]), "   Hi there");
    assert_eq!(row_text(&rows[8]), "   Second line");
    assert_eq!(row_text(&rows[9]), "   ");
    assert_eq!(row_text(&rows[10]), "   D1");
}

#[test]
fn list_rows_mark_selected_items() {
    let mut app = loaded_app();
    app.move_down();
    app.toggle_select_current();
    let dates = vec!["D0".to_string(), "D1".to_string()];
    let rows = app.list_rows_with_dates(40, &dates);
    assert_eq!(rows[6].segs[0].text, "● ");
    assert!(rows[6].lit);
    assert_eq!(rows[0].segs[0].text, "  ");
}

#[test]
fn list_rows_cut_a_long_summary() {
    let mut app = App::new(three_line_config());
    app.load_notifications("1700000000000[*]App[*]A very long summary text[*]b\n");
    app.update_items_per_page(19);
    let rows = app.list_rows_with_dates(12, &vec!["D".to_string()]);
    let title: Vec<String> = rows[0].segs.iter().map(|s| s.text.clone()).collect();
    assert_eq!(title[0], "│ ");
    assert_eq!(title[1], "A very ...");
}

#[test]
fn list_rows_highlight_filter_matches() {
    let mut app = loaded_app();
    app.filter_input = "mail".to_string();
    app.update_display_list();
    let rows = app.list_rows_with_dates(40, &vec!["D".to_string()]);
    assert_eq!(rows.len(), 5);
    let matched: String = rows[0]
        .segs
        .iter()
        .filter(|s| s.tone == Tone::Match)
        .map(|s| s.text.clone())
        .collect();
    assert_eq!(matched, "Mail");
}

#[test]
fn list_rows_say_when_empty() {
    let mut app = App::new(three_line_config());
    app.update_items_per_page(19);
    let rows = app.list_rows_with_dates(40, &vec![]);
    assert_eq!(rows.len(), 1);
    assert_eq!(row_text(&rows[0]), "  No notifications.");
    let mut filtered = loaded_app();
    filtered.filter_input = "zzzz".to_string();
    filtered.update_display_list();
    let rows = filtered.list_rows_with_dates(40, &vec![]);
    assert_eq!(row_text(&rows[0]), "  No notifications match the filter.");
}

#[test]
fn list_rows_show_local_times() {
    let app = loaded_app();
    let rows = app.list_rows(40);
    assert_eq!(rows.len(), 11);
    let date = row_text(&rows[4]);
    assert!(date.starts_with("│  "));
    assert!(date.len() > 10);
}

#[test]
fn count_bar_and_page_dots_follow_the_app() {
    let app = loaded_app();
    assert_eq!(row_text(&app.count_bar(30)), " ─── 2 items ─── ");
    let dots = app.page_dots(30);
    assert!(dots.dots.segs.is_empty());
    assert!(dots.hint.is_none());
}

#[test]
fn help_popup_records_the_pages() {
    let mut app = loaded_app();
    app.help_page = 5;
    let p = app.help_popup((0, 0, 80, 10));
    assert!(p.is_some());
    assert_eq!(app.help_total_pages, 3);
    assert_eq!(app.help_page, 2);
}

#[test]
fn overlays_follow_the_mode() {
    assert!(matches!(overlay_for(Mode::Normal), Overlay::Nothing));
    assert!(matches!(overlay_for(Mode::Filter), Overlay::Nothing));
    assert!(matches!(overlay_for(Mode::Help), Overlay::Help));
    match overlay_for(Mode::ConfirmClearAll) {
        Overlay::Confirm(m) => assert_eq!(m, "Clear ALL notifications?"),
        _ => panic!("expected a confirmation"),
    }
    match overlay_for(Mode::ConfirmClearSelected) {
        Overlay::Confirm(m) => assert_eq!(m, "Clear SELECTED notifications?"),
        _ => panic!("expected a confirmation"),
    }
    assert!(confirm_box(Mode::Normal, (0, 0, 80, 24)).is_none());
    assert_eq!(confirm_box(Mode::ConfirmClearAll, (0, 0, 80, 24)).unwrap().width, 54);
}
