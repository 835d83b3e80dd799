use notify_history::app::Mode;
use notify_history::layout::{
    count_row, dots_content, dots_line, filter_row, header_row, hints_row, too_small_lines, Row,
    Seg, Tone,
};
use notify_history::palette::{hex_color_fits, parse_colors, parse_hex};
use notify_history::config::ColorConfig;

fn texts(segs: &[Seg]) -> Vec<String> {
    segs.iter().map(|s| s.text.clone()).collect()
}

fn row_text(r: &Row) -> String {
    r.segs.iter().map(|s| s.text.clone()).collect()
}

#[test]
fn header_title_shrinks_with_the_width() {
    assert_eq!(row_text(&header_row(21)), " Notification History");
    assert_eq!(row_text(&header_row(20)), " Notifications");
    assert_eq!(row_text(&header_row(14)), " Notifications");
    assert_eq!(row_text(&header_row(13)), " Notifs.");
    let r = header_row(80);
    assert_eq!(r.segs[0].tone, Tone::Accent);
    assert_eq!(r.tone, Tone::Base);
}

#[test]
fn count_label_counts_items() {
    assert_eq!(row_text(&count_row(30, 5, 5, false)), " ─── 5 items ─── ");
    assert_eq!(row_text(&count_row(10, 5, 5, false)), " 5 items ");
    assert_eq!(count_row(30, 5, 5, false).segs[0].tone, Tone::Faint);
}

#[test]
fn count_label_while_filtering() {
    assert_eq!(row_text(&count_row(30, 2, 12, true)), " ─── 2 of 12 ─── ");
    assert_eq!(row_text(&count_row(20, 2, 12, true)), " 2 of 12 ");
}

#[test]
fn filter_bar_shows_the_query_on_the_highlight() {
    let r = filter_row("abc");
    assert_eq!(texts(&r.segs), vec!["Filter: ", "abc", "█"]);
    assert!(r.segs[1].lit);
    assert!(!r.segs[0].lit);
}

#[test]
fn hints_narrow_by_dropping_clear_delete_refresh() {
    assert_eq!(
        texts(&hints_row(Mode::Normal, 48).segs),
        vec!["[r]", " Refresh  ", "[x]", " Delete  ", "[c]", " Clear all  ", "[?]", " Help"]
    );
    assert_eq!(
        texts(&hints_row(Mode::Normal, 47).segs),
        vec!["[r]", " Refresh  ", "[x]", " Delete  ", "[?]", " Help"]
    );
    assert_eq!(texts(&hints_row(Mode::Normal, 32).segs), vec!["[r]", " Refresh  ", "[?]", " Help"]);
    assert_eq!(texts(&hints_row(Mode::Normal, 20).segs), vec!["[?]", " Help"]);
    assert_eq!(texts(&hints_row(Mode::Normal, 0).segs), vec!["[?]", " Help"]);
}

#[test]
fn hints_for_the_other_modes() {
    assert_eq!(
        texts(&hints_row(Mode::Filter, 80).segs),
        vec!["[Enter]", " Confirm  ", "[Esc]", " Cancel"]
    );
    assert_eq!(texts(&hints_row(Mode::Help, 80).segs), vec!["[Esc]", " Close"]);
    assert!(hints_row(Mode::ConfirmClearAll, 80).segs.is_empty());
    assert!(hints_row(Mode::ConfirmClearSelected, 80).segs.is_empty());
    let r = hints_row(Mode::Help, 80);
    assert_eq!(r.segs[0].tone, Tone::Accent);
    assert_eq!(r.segs[1].tone, Tone::Text);
}

#[test]
fn a_single_page_has_no_dots() {
    assert!(dots_content(1, 0, 40, 40).is_empty());
    assert!(dots_content(0, 0, 40, 40).is_empty());
}

#[test]
fn dots_that_fit_are_centred() {
    let segs = dots_content(3, 1, 20, 17);
    assert_eq!(texts(&segs), vec!["       ", "○", " ", "●", " ", "○"]);
    assert_eq!(segs[3].tone, Tone::Accent);
    assert_eq!(segs[1].tone, Tone::Text);
}

#[test]
fn dots_are_truncated_around_the_current_page() {
    let segs = dots_content(20, 10, 17, 17);
    assert_eq!(
        texts(&segs),
        vec!["", " 9...", "○", " ", "●", " ", "○", " ", "○", "... 7"]
    );
    assert_eq!(segs[1].tone, Tone::Faint);
}

#[test]
fn dots_markers_cap_at_ninety_nine() {
    let segs = dots_content(300, 150, 17, 17);
    let t = texts(&segs);
    assert_eq!(t[1], "99+..");
    assert_eq!(t[t.len() - 1], "..+99");
}

#[test]
fn dots_window_at_the_start_has_no_left_marker() {
    let segs = dots_content(20, 0, 17, 17);
    assert_eq!(texts(&segs), vec!["  ", "●", " ", "○", " ", "○", " ", "○", "...16"]);
}

#[test]
fn dots_below_the_minimum_width_are_blank() {
    assert!(dots_content(20, 3, 12, 10).is_empty());
}

#[test]
fn dots_line_reserves_the_help_hint() {
    let with = dots_line(3, 0, 20, true);
    assert_eq!(with.dots_width, 17);
    assert_eq!(row_text(with.hint.as_ref().unwrap()), "[?]");
    let without = dots_line(3, 0, 20, false);
    assert_eq!(without.dots_width, 20);
    assert!(without.hint.is_none());
    assert_eq!(texts(&with.dots.segs)[1..], texts(&without.dots.segs)[1..]);
}

#[test]
fn too_small_message_is_wrapped_to_the_width() {
    let lines = too_small_lines(20, 80, 24);
    let joined: String = lines.concat();
    assert_eq!(
        joined,
        "Terminal too small to function, please resize the terminal window to at least 80 x 24."
    );
    assert!(lines.iter().all(|l| l.chars().count() <= 20));
    assert_eq!(lines[0], "Terminal too small t");
}

#[test]
fn too_small_message_unwrapped_without_width() {
    let lines = too_small_lines(0, 10, 5);
    assert_eq!(
        lines,
        vec!["Terminal too small to function, please resize the terminal window to at least 10 x 5."
            .to_string()]
    );
}

#[test]
fn hex_colours_read_as_rgb() {
    assert_eq!(parse_hex("#cdd6f4"), Some((0xcd, 0xd6, 0xf4)));
    assert_eq!(parse_hex("cdd6f4"), Some((0xcd, 0xd6, 0xf4)));
    assert_eq!(parse_hex("##CDD6F4"), Some((0xcd, 0xd6, 0xf4)));
    assert_eq!(parse_hex("#+a+b+c"), Some((10, 11, 12)));
}

#[test]
fn malformed_hex_colours_are_the_default_colour() {
    assert_eq!(parse_hex("#cdd6f"), None);
    assert_eq!(parse_hex("#cdd6f40"), None);
    assert_eq!(parse_hex("#gggggg"), None);
    assert_eq!(parse_hex("#-a+b+c"), None);
    assert_eq!(parse_hex("#é1234"), None);
    assert_eq!(parse_hex(""), None);
}

#[test]
fn hex_colours_that_would_split_a_character() {
    assert!(!hex_color_fits("#aé123"));
    assert!(hex_color_fits("#é1234"));
    assert!(hex_color_fits("#cdd6f4"));
    assert!(hex_color_fits("anything longer than six bytes"));
}

#[test]
fn default_colours_parse() {
    let p = parse_colors(&ColorConfig::default());
    assert_eq!(p.fg, Some((0xcd, 0xd6, 0xf4)));
    assert_eq!(p.bg, Some((0x1e, 0x1e, 0x2e)));
    assert_eq!(p.accent, Some((0x89, 0xb4, 0xfa)));
    assert_eq!(p.highlight, Some((0x31, 0x32, 0x44)));
    assert_eq!(p.matching, Some((0xa6, 0xe3, 0xa1)));
}

#[test]
fn the_current_page_dot_is_always_shown() {
    for page in 0..50 {
        let segs = dots_content(50, page, 20, 20);
        let current: Vec<&Seg> = segs.iter().filter(|s| s.text == "●").collect();
        assert_eq!(current.len(), 1, "page {page}");
    }
}
