use notify_history::config::{
    config_values_from, default_accent, default_bg, default_body_lines, default_escape_body,
    default_fg, default_highlight, default_matching, default_refresh_time, default_show_app,
    default_show_hints, get_config_values, get_history_file, history_path_from, join_path,
    Config, DisplayConfig, PersistenceConfig,
};

#[test]
fn defaults_of_the_display_section() {
    assert!(default_show_app());
    assert_eq!(default_body_lines(), 4);
    assert!(default_show_hints());
    assert_eq!(default_refresh_time(), 5);
    assert!(!default_escape_body());
    let d = DisplayConfig::default();
    assert!(d.show_app && d.show_hints && !d.escape_body);
    assert_eq!(d.body_lines, 4);
}

#[test]
fn defaults_of_the_colours_and_persistence() {
    assert_eq!(default_fg(), "#cdd6f4");
    assert_eq!(default_bg(), "#1e1e2e");
    assert_eq!(default_accent(), "#89b4fa");
    assert_eq!(default_highlight(), "#313244");
    assert_eq!(default_matching(), "#a6e3a1");
    let p = PersistenceConfig::default();
    assert!(!p.enabled);
    assert_eq!(p.max_history, 0);
}

#[test]
fn default_history_file_is_in_tmp() {
    assert_eq!(Config::default().history_file(), "/tmp/notification-history");
}

#[test]
fn default_toml_mentions_every_section() {
    let t = Config::default_toml_content();
    assert_eq!(t, notify_history::config::DEFAULT_TOML);
    assert!(t.starts_with("[display]\n"));
    assert!(t.contains("[display]"));
    assert!(t.contains("[persistence]"));
    assert!(t.contains("[colors]"));
    assert!(t.contains("max_history = 0"));
}

#[test]
fn default_toml_parses_to_the_defaults() {
    let t: toml::Table = toml::from_str(Config::default_toml_content()).unwrap();
    let d = Config::default();
    let display = t["display"].as_table().unwrap();
    assert_eq!(display["show_app"].as_bool(), Some(d.display.show_app));
    assert_eq!(display["body_lines"].as_integer(), Some(d.display.body_lines as i64));
    assert_eq!(display["show_hints"].as_bool(), Some(d.display.show_hints));
    assert_eq!(display["refresh_time"].as_integer(), Some(d.display.refresh_time as i64));
    assert_eq!(display["escape_body"].as_bool(), Some(d.display.escape_body));
    let persistence = t["persistence"].as_table().unwrap();
    assert_eq!(persistence["enabled"].as_bool(), Some(d.persistence.enabled));
    assert_eq!(persistence["max_history"].as_integer(), Some(d.persistence.max_history as i64));
    let colors = t["colors"].as_table().unwrap();
    assert_eq!(colors["foreground"].as_str(), Some(d.colors.foreground.as_str()));
    assert_eq!(colors["background"].as_str(), Some(d.colors.background.as_str()));
    assert_eq!(colors["accent"].as_str(), Some(d.colors.accent.as_str()));
    assert_eq!(colors["highlight"].as_str(), Some(d.colors.highlight.as_str()));
    assert_eq!(colors["matching"].as_str(), Some(d.colors.matching.as_str()));
}

#[test]
fn paths_join_with_single_slashes() {
    assert_eq!(join_path("/home/u", ".config"), "/home/u/.config");
    assert_eq!(join_path("/home/u/", ".config"), "/home/u/.config");
    assert_eq!(join_path("", "x"), "x");
}

#[test]
fn history_path_follows_persistence() {
    assert_eq!(history_path_from(false, None, None), "/tmp/notification-history");
    assert_eq!(
        history_path_from(true, Some("/s".to_string()), None),
        "/s/notify-history/notification-history"
    );
    assert_eq!(
        history_path_from(true, None, Some("/h".to_string())),
        "/h/.local/state/notify-history/notification-history"
    );
    assert_eq!(history_path_from(true, None, None), "/tmp/notification-history");
}

#[test]
fn daemon_config_values() {
    let on = PersistenceConfig { enabled: true, max_history: 7 };
    let (p, m) = config_values_from(&on, "/h", None);
    assert_eq!(p, "/h/.local/state/notify-history/notification-history");
    assert_eq!(m, 7);
    let (p, m) = config_values_from(&on, "/h", Some("/s".to_string()));
    assert_eq!(p, "/s/notify-history/notification-history");
    assert_eq!(m, 7);
    let (p, m) = config_values_from(&PersistenceConfig::default(), "/h", None);
    assert_eq!(p, "/tmp/notification-history");
    assert_eq!(m, 0);
}

#[test]
fn daemon_config_without_a_file() {
    let (p, m) = get_config_values(None, None);
    assert_eq!(p, "/tmp/notification-history");
    assert_eq!(m, 0);
    let (p, m) = get_config_values(Some("/h".to_string()), None);
    assert_eq!(p, "/tmp/notification-history");
    assert_eq!(m, 0);
    let off = PersistenceConfig { enabled: false, max_history: 3 };
    let (p, m) = get_config_values(Some("/h".to_string()), Some(off.clone()));
    assert_eq!(p, "/tmp/notification-history");
    assert_eq!(m, 3);
    assert_eq!(get_history_file(Some("/h".to_string()), Some(off)), "/tmp/notification-history");
    assert_eq!(get_history_file(None, None), "/tmp/notification-history");
}

#[test]
fn config_file_locations() {
    if let Some(p) = Config::config_path() {
        assert!(p.ends_with("/notify-history/config.toml"));
    }
    if let Some((home, path)) = notify_history::config::ctl_config_location() {
        assert_eq!(path, join_path(&join_path(&join_path(&home, ".config"), "notify-history"), "config.toml"));
    }
}
