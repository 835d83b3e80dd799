use notify_history::wrap::{
    display_width, match_segments, truncate_to_cols, word_wrap_to_cols, wrap_to_cols,
};

fn pieces(v: Vec<(String, usize)>) -> Vec<(String, usize)> {
    v
}

#[test]
fn truncate_keeps_prefix_that_fits() {
    assert_eq!(truncate_to_cols("hello world", 5), "hello");
    assert_eq!(truncate_to_cols("hello", 10), "hello");
    assert_eq!(truncate_to_cols("hello", 0), "");
}

#[test]
fn truncate_counts_wide_characters() {
    assert_eq!(truncate_to_cols("日本語", 5), "日本");
    assert_eq!(truncate_to_cols("日本語", 1), "");
}

#[test]
fn truncate_gives_control_characters_no_width() {
    assert_eq!(truncate_to_cols("a\tb", 2), "a\tb");
}

#[test]
fn wrap_breaks_between_characters() {
    assert_eq!(
        pieces(wrap_to_cols("abcdef", 4)),
        vec![("abcd".to_string(), 0), ("ef".to_string(), 4)]
    );
}

#[test]
fn wrap_empty_text_gives_one_empty_line() {
    assert_eq!(pieces(wrap_to_cols("", 5)), vec![(String::new(), 0)]);
}

#[test]
fn wrap_with_no_columns_gives_one_empty_line() {
    assert_eq!(pieces(wrap_to_cols("abc", 0)), vec![(String::new(), 0)]);
}

#[test]
fn wrap_puts_a_too_wide_character_on_its_own_line() {
    assert_eq!(
        pieces(wrap_to_cols("日本", 1)),
        vec![("日".to_string(), 0), ("本".to_string(), 1)]
    );
}

#[test]
fn wrap_pieces_concatenate_back_to_the_text() {
    let text = "The quick brown fox jumps over the lazy dog";
    let ps = wrap_to_cols(text, 7);
    let joined: String = ps.iter().map(|p| p.0.clone()).collect();
    assert_eq!(joined, text);
    let mut offset = 0;
    for (t, start) in &ps {
        assert_eq!(*start, offset);
        assert!(display_width(t) <= 7);
        offset += t.chars().count();
    }
}

#[test]
fn word_wrap_joins_words_that_fit() {
    assert_eq!(
        word_wrap_to_cols("the quick brown fox", 10),
        vec!["the quick".to_string(), "brown fox".to_string()]
    );
}

#[test]
fn word_wrap_keeps_a_long_word_whole() {
    assert_eq!(
        word_wrap_to_cols("a verylongword b", 5),
        vec!["a".to_string(), "verylongword".to_string(), "b".to_string()]
    );
}

#[test]
fn word_wrap_of_empty_text_is_one_empty_line() {
    assert_eq!(word_wrap_to_cols("", 5), vec![String::new()]);
}

#[test]
fn word_wrap_with_no_columns_keeps_the_text() {
    assert_eq!(word_wrap_to_cols("a  b", 0), vec!["a  b".to_string()]);
}

#[test]
fn word_wrap_collapses_whitespace() {
    assert_eq!(word_wrap_to_cols("  a \t  b  ", 10), vec!["a b".to_string()]);
}

#[test]
fn word_wrap_of_only_spaces_is_one_empty_line() {
    assert_eq!(word_wrap_to_cols("   ", 10), vec![String::new()]);
}

#[test]
fn segments_without_indices_are_one_plain_run() {
    assert_eq!(match_segments("abc", &vec![]), vec![("abc".to_string(), false)]);
    assert_eq!(match_segments("", &vec![]), vec![(String::new(), false)]);
}

#[test]
fn segments_alternate_between_matched_and_plain() {
    assert_eq!(
        match_segments("abcdef", &vec![1, 2, 4]),
        vec![
            ("a".to_string(), false),
            ("bc".to_string(), true),
            ("d".to_string(), false),
            ("e".to_string(), true),
            ("f".to_string(), false),
        ]
    );
}

#[test]
fn segments_may_start_with_a_match() {
    assert_eq!(
        match_segments("abc", &vec![0]),
        vec![("a".to_string(), true), ("bc".to_string(), false)]
    );
}

#[test]
fn segments_ignore_indices_past_the_text() {
    assert_eq!(match_segments("ab", &vec![7]), vec![("ab".to_string(), false)]);
}

#[test]
fn widths_of_ascii_and_wide_text() {
    assert_eq!(display_width("abc"), 3);
    assert_eq!(display_width(""), 0);
    assert_eq!(display_width("日本"), 4);
    assert_eq!(display_width("●"), 1);
}

#[test]
fn word_wrap_keeps_the_words_in_order() {
    let text = "  alpha beta\tgamma  delta epsilon ";
    let lines = word_wrap_to_cols(text, 11);
    assert_eq!(lines, vec!["alpha beta", "gamma delta", "epsilon"]);
    let words: Vec<&str> = lines.iter().flat_map(|l| l.split(' ')).collect();
    assert_eq!(words, text.split_whitespace().collect::<Vec<_>>());
}

#[test]
fn wrapped_sub_lines_fit_unless_a_single_character() {
    for (t, start) in wrap_to_cols("ab日cd本", 1) {
        assert!(display_width(&t) <= 1 || t.chars().count() == 1, "{t} at {start}");
    }
}
