//! Configuration: the TUI's settings with their defaults, where the history
//! file lives, and the daemon's history file and limit.
use vstd::prelude::*;

use crate::text::{chars_of, push_all};

verus! {

// ── Sub-configs ───────────────────────────────────────────────────────────────

/// How notifications are shown.
#[derive(Debug, Clone)]
pub struct DisplayConfig {
    pub show_app: bool,
    /// Number of body lines shown per notification (0–4)
    pub body_lines: u8,
    /// Whether to show the keybind hint bar at the bottom (can be toggled per-session with F1)
    pub show_hints: bool,
    /// Automatically refresh the notification list every N seconds (0 = disabled)
    pub refresh_time: u64,
    /// When true, show literal escape sequences (e.g. `\n`) in the notification body.
    /// When false (default), convert them to real characters for display.
    pub escape_body: bool,
}

/// By default the app name is shown next to the summary.
pub fn default_show_app() -> (r: bool)
    ensures
        r == true,
{
    true
}

/// By default four body lines are shown per notification.
pub fn default_body_lines() -> (r: u8)
    ensures
        r == 4,
{
    4
}

/// By default the key-hint bar is shown.
pub fn default_show_hints() -> (r: bool)
    ensures
        r == true,
{
    true
}

/// The default refresh interval, in seconds.
pub fn default_refresh_time() -> (r: u64)
    ensures
        r == 5,
{
    5
}

/// By default escapes in bodies are expanded for display.
pub fn default_escape_body() -> (r: bool)
    ensures
        r == false,
{
    false
}

impl Default for DisplayConfig {
    fn default() -> (r: Self)
        ensures
            r.show_app == true,
            r.body_lines == 4,
            r.show_hints == true,
            r.refresh_time == 5,
            r.escape_body == false,
    {
        DisplayConfig {
            show_app: default_show_app(),
            body_lines: default_body_lines(),
            show_hints: default_show_hints(),
            refresh_time: default_refresh_time(),
            escape_body: default_escape_body(),
        }
    }
}

/// Where history is kept and how much of it.
#[derive(Debug, Clone)]
pub struct PersistenceConfig {
    pub enabled: bool,
    /// Maximum number of notifications to keep in history (0 = unlimited)
    pub max_history: usize,
}

impl Default for PersistenceConfig {
    fn default() -> (r: Self)
        ensures
            r.enabled == false,
            r.max_history == 0,
    {
        PersistenceConfig { enabled: false, max_history: 0 }
    }
}

/// Hex colour strings for the TUI.
#[derive(Debug, Clone)]
pub struct ColorConfig {
    pub foreground: String,
    pub background: String,
    pub accent: String,
    /// Background colour for the selected (cursor) item
    pub highlight: String,
    /// Foreground colour for fuzzy-matched characters
    pub matching: String,
}

fn owned(s: &str) -> (r: String)
    ensures
        r@ == s@,
{
    let mut r = String::new();
    push_all(&mut r, s);
    r
}

/// The default text colour.
pub fn default_fg() -> (r: String)
    ensures
        r@ == "#cdd6f4"@,
{
    owned("#cdd6f4")
}

/// The default background colour.
pub fn default_bg() -> (r: String)
    ensures
        r@ == "#1e1e2e"@,
{
    owned("#1e1e2e")
}

/// The default accent colour (titles, markers, key hints).
pub fn default_accent() -> (r: String)
    ensures
        r@ == "#89b4fa"@,
{
    owned("#89b4fa")
}

/// The default background of the cursor's item.
pub fn default_highlight() -> (r: String)
    ensures
        r@ == "#313244"@,
{
    owned("#313244")
}

/// The default colour of fuzzy-matched characters.
pub fn default_matching() -> (r: String)
    ensures
        r@ == "#a6e3a1"@,
{
    owned("#a6e3a1")
}

impl Default for ColorConfig {
    fn default() -> (r: Self)
        ensures
            r.foreground@ == "#cdd6f4"@,
            r.background@ == "#1e1e2e"@,
            r.accent@ == "#89b4fa"@,
            r.highlight@ == "#313244"@,
            r.matching@ == "#a6e3a1"@,
    {
        ColorConfig {
            foreground: default_fg(),
            background: default_bg(),
            accent: default_accent(),
            highlight: default_highlight(),
            matching: default_matching(),
        }
    }
}

// ── Root config ───────────────────────────────────────────────────────────────

/// All settings.
#[derive(Debug, Clone)]
pub struct Config {
    pub display: DisplayConfig,
    pub persistence: PersistenceConfig,
    pub colors: ColorConfig,
}

impl Default for Config {
    fn default() -> (r: Self)
        ensures
            r.display.show_app == true,
            r.display.body_lines == 4,
            r.display.show_hints == true,
            r.display.refresh_time == 5,
            r.display.escape_body == false,
            r.persistence.enabled == false,
            r.persistence.max_history == 0,
            r.colors.foreground@ == "#cdd6f4"@,
            r.colors.background@ == "#1e1e2e"@,
            r.colors.accent@ == "#89b4fa"@,
            r.colors.highlight@ == "#313244"@,
            r.colors.matching@ == "#a6e3a1"@,
    {
        Config {
            display: DisplayConfig::default(),
            persistence: PersistenceConfig::default(),
            colors: ColorConfig::default(),
        }
    }
}

// ── Paths ─────────────────────────────────────────────────────────────────────

/// `base` joined with the relative component `comp` (`Path::join`): a `/`
/// goes between them unless `base` is empty or already ends with one.
pub open spec fn path_join(base: Seq<char>, comp: Seq<char>) -> Seq<char> {
    if base.len() == 0 {
        comp
    } else if base.last() == '/' {
        base + comp
    } else {
        base + seq!['/'] + comp
    }
}

/// Join the relative component `comp` onto `base`.
pub fn join_path(base: &str, comp: &str) -> (r: String)
    ensures
        r@ == path_join(base@, comp@),
{
    let bv = chars_of(base);
    let mut r = owned(base);
    if bv.len() > 0 && bv[bv.len() - 1] != '/' {
        r.push('/');
    }
    push_all(&mut r, comp);
    proof {
        if bv.len() > 0 && bv@.last() != '/' {
            assert(r@ =~= base@ + seq!['/'] + comp@);
        }
    }
    r
}

/// The user's configuration directory, from `dirs::config_dir()`, as text
/// (`to_string_lossy`: paths here are `String`s, so a directory whose name
/// is not UTF-8 comes out with replacement characters). It comes from the
/// environment, so nothing is promised of it.
#[verifier::external_body]
fn config_dir() -> (r: Option<String>) {
    dirs::config_dir().map(|d| d.to_string_lossy().into_owned())
}

/// The user's state directory, from `dirs::state_dir()`, as text
/// (`to_string_lossy`, as for `config_dir`). It comes from the environment,
/// so nothing is promised of it.
#[verifier::external_body]
fn state_dir() -> (r: Option<String>) {
    dirs::state_dir().map(|d| d.to_string_lossy().into_owned())
}

/// The user's home directory, from `dirs::home_dir()`, as text
/// (`to_string_lossy`, as for `config_dir`). It comes from the environment,
/// so nothing is promised of it.
#[verifier::external_body]
fn home_dir() -> (r: Option<String>) {
    dirs::home_dir().map(|d| d.to_string_lossy().into_owned())
}

/// The default history file, cleared on shutdown.
pub open spec fn default_history_path() -> Seq<char> {
    "/tmp/notification-history"@
}

/// The persistent history file under a state directory.
pub open spec fn persistent_history_path(state: Seq<char>) -> Seq<char> {
    path_join(path_join(state, "notify-history"@), "notification-history"@)
}

/// The state directory to use: the platform's, else `~/.local/state`.
pub open spec fn state_base(state: Option<Seq<char>>, home: Option<Seq<char>>) -> Option<Seq<char>> {
    match state {
        Some(s) => Some(s),
        None => match home {
            Some(h) => Some(path_join(path_join(h, ".local"@), "state"@)),
            None => None,
        },
    }
}

/// Where the history file lives given the persistence setting and the
/// state and home directories that the environment gives.
pub open spec fn history_path_spec(
    enabled: bool,
    state: Option<Seq<char>>,
    home: Option<Seq<char>>,
) -> Seq<char> {
    if enabled {
        match state_base(state, home) {
            Some(s) => persistent_history_path(s),
            None => default_history_path(),
        }
    } else {
        default_history_path()
    }
}

/// With persistence enabled and a state or home directory known, the
/// history lives under that directory, never in the temporary file; with
/// persistence off it is the temporary file whatever the directories.
pub proof fn lemma_persistent_history_path(state: Option<Seq<char>>, home: Option<Seq<char>>)
    ensures
        state_base(state, home) matches Some(b) ==> history_path_spec(true, state, home)
            == persistent_history_path(b) && history_path_spec(true, state, home)
            != default_history_path(),
        state is Some ==> state_base(state, home) == state,
        history_path_spec(false, state, home) == default_history_path(),
{
    if let Some(b) = state_base(state, home) {
        reveal_strlit("notify-history");
        reveal_strlit("notification-history");
        reveal_strlit("/tmp/notification-history");
        let y = path_join(b, "notify-history"@);
        assert(y.len() >= 14);
        assert(persistent_history_path(b).len() >= 34);
        assert(default_history_path().len() == 25);
    }
}

/// The view of an optional string.
pub open spec fn opt_str(o: Option<String>) -> Option<Seq<char>> {
    match o {
        Some(s) => Some(s@),
        None => None,
    }
}

fn default_history_file() -> (r: String)
    ensures
        r@ == default_history_path(),
{
    owned("/tmp/notification-history")
}

fn persistent_history_file(state: &str) -> (r: String)
    ensures
        r@ == persistent_history_path(state@),
{
    let a = join_path(state, "notify-history");
    join_path(a.as_str(), "notification-history")
}

/// Where the history file lives given the persistence setting and the
/// directories found: `<state>/notify-history/notification-history`, with
/// `<home>/.local/state` standing in for a missing state directory, when
/// persistence is enabled; `/tmp/notification-history` otherwise.
pub fn history_path_from(enabled: bool, state: Option<String>, home: Option<String>) -> (r: String)
    ensures
        r@ == history_path_spec(enabled, opt_str(state), opt_str(home)),
{
    if enabled {
        match state {
            Some(s) => persistent_history_file(s.as_str()),
            None => match home {
                Some(h) => {
                    let a = join_path(h.as_str(), ".local");
                    let b = join_path(a.as_str(), "state");
                    persistent_history_file(b.as_str())
                },
                None => default_history_file(),
            },
        }
    } else {
        default_history_file()
    }
}

/// The commented configuration file written when there is none: every
/// setting at its default value.
pub const DEFAULT_TOML: &'static str = "[display]
# Show the application name for each notification.
show_app = true

# Number of body lines shown per notification (0-4).
body_lines = 4

# Show the keybind hint bar at the bottom (can be toggled per-session with F1).
show_hints = true

# Automatically refresh the notification list every N seconds (0 = disabled).
refresh_time = 5

# When true, show literal escape sequences (e.g. \\n) in the notification body.
# When false (default), convert them to real characters for display.
escape_body = false

[persistence]
# Persist notification history across reboots.
enabled = false

# Maximum number of notifications to keep in history (0 = unlimited).
max_history = 0

[colors]
# Hex color strings for the TUI.
foreground = \"#cdd6f4\"
background = \"#1e1e2e\"
accent     = \"#89b4fa\"
highlight  = \"#313244\"
matching   = \"#a6e3a1\"
";

impl Config {
    /// The config file path: `<config dir>/notify-history/config.toml`.
    pub fn config_path() -> (r: Option<String>)
        ensures
            r matches Some(p) ==> exists|d: Seq<char>|
                p@ == path_join(path_join(d, "notify-history"@), "config.toml"@),
    {
        match config_dir() {
            Some(d) => {
                let a = join_path(d.as_str(), "notify-history");
                Some(join_path(a.as_str(), "config.toml"))
            },
            None => None,
        }
    }

    /// The history file for this configuration: the persistent one under
    /// the state directory when persistence is enabled, else
    /// `/tmp/notification-history`.
    pub fn history_file(&self) -> (r: String)
        ensures
            !self.persistence.enabled ==> r@ == default_history_path(),
            exists|state: Option<Seq<char>>, home: Option<Seq<char>>|
                r@ == history_path_spec(self.persistence.enabled, state, home),
    {
        if self.persistence.enabled {
            let state = state_dir();
            let home = match &state {
                Some(_) => None,
                None => home_dir(),
            };
            let ghost (s, h) = (opt_str(state), opt_str(home));
            let r = history_path_from(true, state, home);
            proof {
                assert(r@ == history_path_spec(true, s, h));
            }
            r
        } else {
            let r = default_history_file();
            proof {
                assert(r@ == history_path_spec(false, None, None));
            }
            r
        }
    }

    /// A fully-commented TOML text with all default values.
    pub fn default_toml_content() -> (r: &'static str)
        ensures
            r@ == DEFAULT_TOML@,
    {
        DEFAULT_TOML
    }
}

// ── The daemon's settings ────────────────────────────────────────────────────

/// The daemon's history file and history limit for the `[persistence]`
/// settings `enabled` and `max_history` (as the TOML parse of the config
/// file gives them), given the home directory and the state directory that
/// the environment gives.
pub open spec fn config_values_spec(
    enabled: bool,
    max_history: int,
    home: Seq<char>,
    state: Option<Seq<char>>,
) -> (Seq<char>, int) {
    (history_path_spec(enabled, state, Some(home)), max_history)
}

/// With the default `[persistence]` settings (those of `Config::default`
/// and of the default config text) the daemon keeps its history in
/// `/tmp/notification-history` with no limit, whatever the home and state
/// directories.
pub proof fn lemma_default_settings(home: Seq<char>, state: Option<Seq<char>>)
    ensures
        config_values_spec(false, 0, home, state) == (default_history_path(), 0int),
{
}

/// The daemon's history file and history limit for the `[persistence]`
/// settings of its config file `<home>/.config/notify-history/config.toml`.
pub fn config_values_from(persistence: &PersistenceConfig, home: &str, state: Option<String>) -> (r: (
    String,
    usize,
))
    ensures
        (r.0@, r.1 as int) == config_values_spec(
            persistence.enabled,
            persistence.max_history as int,
            home@,
            opt_str(state),
        ),
{
    let h = owned(home);
    let path = history_path_from(persistence.enabled, state, Some(h));
    (path, persistence.max_history)
}

/// The daemon's config file under a home directory.
pub open spec fn ctl_config_path_spec(home: Seq<char>) -> Seq<char> {
    path_join(path_join(path_join(home, ".config"@), "notify-history"@), "config.toml"@)
}

/// The home directory and the daemon's config file in it, when the
/// environment gives a home directory.
pub fn ctl_config_location() -> (r: Option<(String, String)>)
    ensures
        r matches Some((h, p)) ==> p@ == ctl_config_path_spec(h@),
{
    match home_dir() {
        Some(h) => {
            let a = join_path(h.as_str(), ".config");
            let b = join_path(a.as_str(), "notify-history");
            let p = join_path(b.as_str(), "config.toml");
            Some((h, p))
        },
        None => None,
    }
}

/// The daemon's history file and history limit: from the `[persistence]`
/// settings of its config file when the file could be read and parsed
/// (asking the environment for the state directory only when persistence is
/// enabled), else `/tmp/notification-history` and no limit.
pub fn get_config_values(home: Option<String>, persistence: Option<PersistenceConfig>) -> (r: (
    String,
    usize,
))
    ensures
        match (home, persistence) {
            (Some(h), Some(p)) => exists|state: Option<Seq<char>>|
                (r.0@, r.1 as int) == config_values_spec(
                    p.enabled,
                    p.max_history as int,
                    h@,
                    state,
                ),
            _ => r.0@ == default_history_path() && r.1 == 0,
        },
{
    match (home, persistence) {
        (Some(h), Some(p)) => {
            let state = if p.enabled {
                state_dir()
            } else {
                None
            };
            let ghost sv = opt_str(state);
            let r = config_values_from(&p, h.as_str(), state);
            proof {
                assert((r.0@, r.1 as int) == config_values_spec(
                    p.enabled,
                    p.max_history as int,
                    h@,
                    sv,
                ));
            }
            r
        },
        _ => (default_history_file(), 0),
    }
}

/// The daemon's history file (the first of `get_config_values`).
pub fn get_history_file(home: Option<String>, persistence: Option<PersistenceConfig>) -> (r: String)
    ensures
        match (home, persistence) {
            (Some(h), Some(p)) => exists|state: Option<Seq<char>>|
                r@ == history_path_spec(p.enabled, state, Some(h@)),
            _ => r@ == default_history_path(),
        },
{
    let ghost hp = (home, persistence);
    let r = get_config_values(home, persistence);
    proof {
        match hp {
            (Some(h), Some(p)) => {
                let state = choose|state: Option<Seq<char>>|
                    (r.0@, r.1 as int) == config_values_spec(
                        p.enabled,
                        p.max_history as int,
                        h@,
                        state,
                    );
                assert(r.0@ == history_path_spec(p.enabled, state, Some(h@)));
            },
            _ => {},
        }
    }
    r.0
}

} // verus!
