//! Verified core of a notification history viewer: the history-file format,
//! the daemon's `dbus-monitor` parser, configuration parsing, the list
//! navigation state and the layout decisions of the terminal interface.
pub mod app;
pub mod config;
pub mod daemon;
pub mod escape;
pub mod filter;
pub mod layout;
pub mod listing;
pub mod notification;
pub mod palette;
pub mod popup;
pub mod screen;
pub mod text;
pub mod wrap;
