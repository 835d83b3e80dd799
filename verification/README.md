# notify-history

A notification history viewer for Linux desktops: a daemon
(`notify-history-ctl`) that follows `dbus-monitor` and records every desktop
notification at the top of a history file, and a terminal interface
(`notify-history`) that lists, filters, pages through and deletes them.

The library in `src/` holds the logic, verified with Verus:

| module | what it holds |
|---|---|
| `text` | lines, words, trimming and decimal numbers on characters |
| `escape` | escaping fields so that a notification fits on one line |
| `notification` | the history-file line format and the history file itself |
| `daemon` | the `dbus-monitor` output parser and the bounded prepend |
| `config` | defaults, the daemon's history file and limit, file locations |
| `filter` | the fuzzy matcher (`fuzzy-matcher`) |
| `app` | the viewer's state: list, filter, pages, cursor, selection, keys |
| `wrap` | column widths (`unicode-width`), truncation, wrapping, highlights |
| `layout` | header, count bar, filter bar, key hints, page dots |
| `listing` | the rows of the notification list |
| `popup` | the confirmation box and the paginated key-binding help |
| `palette` | `#rrggbb` colours |
| `screen` | how the screen is split (`ratatui`'s layout) and its overlays |

`app/` is the program around it: command lines, the terminal, files, the
child process and drawing the library's rows with `ratatui`. Started under
the name `notify-history-ctl` it runs the daemon, otherwise the viewer.

`tests/` exercises the library on concrete values.
