use notify_history::app::{App, Key, KeyAction, Mode};
use notify_history::config::Config;

/// A configuration that shows three body lines per notification.
fn three_line_config() -> Config {
    let mut c = Config::default();
    c.display.body_lines = 3;
    c
}

fn history(n: usize) -> String {
    let mut s = String::new();
    for i in 0..n {
        s.push_str(&format!("{}[*]app{}[*]summary {}[*]body {}\n", 1700000000000u64 + i as u64, i, i, i));
    }
    s
}

fn app_with(n: usize, height: u16) -> App {
    let mut app = App::new(three_line_config());
    app.load_notifications(&history(n));
    app.update_items_per_page(height);
    app
}

#[test]
fn new_app_is_empty() {
    let app = App::new(three_line_config());
    assert!(app.all_notifications.is_empty());
    assert_eq!(app.num_pages(), 1);
    assert_eq!(app.items_on_current_page(), 0);
    assert_eq!(app.cursor_notif_idx(), None);
    assert_eq!(app.mode, Mode::Normal);
}

#[test]
fn pages_hold_as_many_items_as_fit() {
    let app = app_with(7, 19);
    assert_eq!(app.items_per_page, 3);
    assert_eq!(app.num_pages(), 3);
    assert_eq!(app.items_on_current_page(), 3);
}

#[test]
fn body_lines_shrink_on_a_short_screen() {
    let app = app_with(7, 4);
    assert_eq!(app.effective_body_lines, 2);
    assert_eq!(app.rows_per_notif, 5);
    assert_eq!(app.items_per_page, 1);
}

#[test]
fn moving_down_crosses_pages_and_stops_at_the_end() {
    let mut app = app_with(7, 19);
    for _ in 0..3 {
        app.move_down();
    }
    assert_eq!((app.page, app.cursor), (1, 0));
    for _ in 0..10 {
        app.move_down();
    }
    assert_eq!((app.page, app.cursor), (2, 0));
    assert_eq!(app.cursor_display_idx(), 6);
}

#[test]
fn moving_up_crosses_pages_and_stops_at_the_start() {
    let mut app = app_with(7, 19);
    app.go_to_end();
    assert_eq!(app.cursor_display_idx(), 6);
    app.move_up();
    assert_eq!((app.page, app.cursor), (1, 2));
    for _ in 0..10 {
        app.move_up();
    }
    assert_eq!((app.page, app.cursor), (0, 0));
}

#[test]
fn down_then_up_returns() {
    let mut app = app_with(7, 19);
    app.move_down();
    app.move_down();
    let before = app.cursor_display_idx();
    app.move_down();
    app.move_up();
    assert_eq!(app.cursor_display_idx(), before);
}

#[test]
fn page_keys_clamp_the_cursor() {
    let mut app = app_with(7, 19);
    app.move_down();
    app.move_down();
    app.next_page();
    app.next_page();
    assert_eq!((app.page, app.cursor), (2, 0));
    app.prev_page();
    assert_eq!((app.page, app.cursor), (1, 0));
    app.go_to_start();
    assert_eq!((app.page, app.cursor), (0, 0));
}

#[test]
fn removing_keeps_the_cursor_in_range() {
    let mut app = app_with(3, 19);
    app.go_to_end();
    assert!(app.remove_current_notification());
    assert_eq!(app.all_notifications.len(), 2);
    assert_eq!(app.cursor_display_idx(), 1);
    assert_eq!(app.all_notifications[1].summary, "summary 1");
}

#[test]
fn removing_from_an_empty_list_does_nothing() {
    let mut app = App::new(three_line_config());
    assert!(!app.remove_current_notification());
}

#[test]
fn selection_shifts_when_an_earlier_item_goes() {
    let mut app = app_with(3, 19);
    app.go_to_end();
    app.toggle_select_current();
    assert!(app.multi_selected.contains(&2));
    app.go_to_start();
    app.remove_current_notification();
    assert!(app.multi_selected.contains(&1));
    assert_eq!(app.multi_selected.len(), 1);
}

#[test]
fn clearing_selected_keeps_the_rest() {
    let mut app = app_with(4, 19);
    app.toggle_select_current();
    app.move_down();
    app.move_down();
    app.toggle_select_current();
    assert!(app.selection_in_range());
    app.clear_selected_notifications();
    let left: Vec<String> = app.all_notifications.iter().map(|n| n.summary.clone()).collect();
    assert_eq!(left, vec!["summary 1", "summary 3"]);
    assert!(app.multi_selected.is_empty());
}

#[test]
fn clearing_all_empties_everything() {
    let mut app = app_with(4, 19);
    app.toggle_select_current();
    app.clear_all_notifications();
    assert!(app.all_notifications.is_empty());
    assert!(app.display_list.is_empty());
    assert!(app.multi_selected.is_empty());
}

#[test]
fn filtering_narrows_the_list() {
    let mut app = app_with(12, 19);
    app.filter_input = "summary 1".to_string();
    app.update_display_list();
    assert_eq!(app.display_list, vec![1, 10, 11]);
    let m = app.get_match_indices(10);
    assert_eq!(m.summary, vec![0, 1, 2, 3, 4, 5, 6, 7, 8]);
}

#[test]
fn match_indices_are_empty_without_a_query() {
    let app = app_with(2, 19);
    let m = app.get_match_indices(0);
    assert!(m.summary.is_empty() && m.app_name.is_empty() && m.body_per_line.is_empty());
}

#[test]
fn keys_in_normal_mode() {
    let mut app = app_with(3, 19);
    assert_eq!(app.handle_key(Key::Char('j')), KeyAction::Continue);
    assert_eq!(app.cursor, 1);
    assert_eq!(app.handle_key(Key::Char('r')), KeyAction::Reload);
    assert_eq!(app.handle_key(Key::Char('x')), KeyAction::Save);
    assert_eq!(app.all_notifications.len(), 2);
    assert_eq!(app.handle_key(Key::Char('S')), KeyAction::Continue);
    assert_eq!(app.mode, Mode::Normal);
    assert_eq!(app.handle_key(Key::F(1)), KeyAction::Continue);
    assert!(!app.show_hints);
    assert_eq!(app.handle_key(Key::Char('?')), KeyAction::Continue);
    assert_eq!(app.mode, Mode::Help);
    assert_eq!(app.handle_key(Key::Esc), KeyAction::Continue);
    assert_eq!(app.mode, Mode::Normal);
    assert_eq!(app.handle_key(Key::Char('q')), KeyAction::Quit);
}

#[test]
fn keys_in_filter_mode() {
    let mut app = app_with(12, 19);
    app.handle_key(Key::Char('/'));
    assert_eq!(app.mode, Mode::Filter);
    app.handle_key(Key::Char('1'));
    app.handle_key(Key::Char('1'));
    assert_eq!(app.filter_input, "11");
    app.handle_key(Key::Backspace);
    assert_eq!(app.filter_input, "1");
    app.handle_key(Key::Enter);
    assert_eq!(app.mode, Mode::Normal);
    assert_eq!(app.filter_input, "1");
    app.handle_key(Key::Char('/'));
    app.handle_key(Key::Esc);
    assert_eq!(app.filter_input, "");
    assert_eq!(app.display_list.len(), 12);
}

#[test]
fn keys_in_confirm_dialogs() {
    let mut app = app_with(3, 19);
    app.handle_key(Key::Char('c'));
    assert_eq!(app.mode, Mode::ConfirmClearAll);
    assert_eq!(app.handle_key(Key::Char('n')), KeyAction::Continue);
    assert_eq!(app.all_notifications.len(), 3);
    app.handle_key(Key::Char('s'));
    app.handle_key(Key::Char('S'));
    assert_eq!(app.mode, Mode::ConfirmClearSelected);
    assert_eq!(app.handle_key(Key::Enter), KeyAction::Save);
    assert_eq!(app.all_notifications.len(), 2);
    assert_eq!(app.mode, Mode::Normal);
}

#[test]
fn save_and_reload_keep_the_notifications() {
    let mut app = app_with(3, 19);
    let content = app.history_content();
    let mut other = App::new(three_line_config());
    other.load_notifications(&content);
    assert_eq!(other.all_notifications.len(), 3);
    assert_eq!(other.all_notifications[2].body, "body 2");
    app.clear_all_notifications();
    assert_eq!(app.history_content(), "");
}

#[test]
fn help_pages_step_within_range() {
    let mut app = app_with(1, 19);
    app.help_total_pages = 2;
    app.help_next_page();
    app.help_next_page();
    assert_eq!(app.help_page, 1);
    app.help_prev_page();
    app.help_prev_page();
    assert_eq!(app.help_page, 0);
}

#[test]
fn pages_share_out_every_item() {
    for n in [0usize, 1, 5, 6, 7, 12] {
        let mut app = app_with(n, 19);
        let mut total = 0;
        for p in 0..app.num_pages() {
            app.page = p;
            total += app.items_on_current_page();
        }
        assert_eq!(total, n);
    }
}

#[test]
fn refitting_to_the_same_height_keeps_the_cursor() {
    let mut app = app_with(7, 19);
    app.move_down();
    app.next_page();
    app.move_down();
    let before = (app.page, app.cursor);
    app.update_items_per_page(19);
    assert_eq!((app.page, app.cursor), before);
}

#[test]
fn keys_that_only_change_the_mode_keep_the_rest() {
    let mut app = app_with(3, 19);
    app.toggle_select_current();
    app.move_down();
    for (k, m) in [(Key::Char('c'), Mode::ConfirmClearAll), (Key::Char('/'), Mode::Filter), (Key::Char('?'), Mode::Help)] {
        let mut a = app_with(3, 19);
        a.toggle_select_current();
        a.move_down();
        a.handle_key(k);
        assert_eq!(a.mode, m);
        assert_eq!(a.all_notifications.len(), 3);
        assert!(a.multi_selected.contains(&0));
        assert_eq!(a.cursor, 1);
    }
    assert_eq!(app.handle_key(Key::Char('q')), KeyAction::Quit);
    assert_eq!(app.cursor, 1);
    assert_eq!(app.all_notifications.len(), 3);
}

#[test]
fn cancelling_a_confirmation_keeps_the_selection() {
    let mut app = app_with(3, 19);
    app.toggle_select_current();
    app.handle_key(Key::Char('S'));
    assert_eq!(app.mode, Mode::ConfirmClearSelected);
    app.handle_key(Key::Char('z'));
    assert_eq!(app.mode, Mode::ConfirmClearSelected);
    app.handle_key(Key::Esc);
    assert_eq!(app.mode, Mode::Normal);
    assert!(app.multi_selected.contains(&0));
    assert_eq!(app.all_notifications.len(), 3);
}

#[test]
fn default_config_shows_four_body_lines() {
    let mut app = App::new(Config::default());
    app.load_notifications(&history(5));
    app.update_items_per_page(19);
    assert_eq!(app.effective_body_lines, 4);
    assert_eq!(app.rows_per_notif, 7);
    assert_eq!(app.items_per_page, 2);
    assert_eq!(app.num_pages(), 3);
}
