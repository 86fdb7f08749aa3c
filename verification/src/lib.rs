//! Core logic of the Compare Observer file watcher: the watched-files table,
//! exclusion rules, settings defaults, watch-event handling, notification
//! text and the line diff shown for a changed file.

pub mod file_entry;
pub mod text;
pub mod diff;
pub mod file_ops;
pub mod rules;
pub mod settings;
pub mod watch;
pub mod telegram;
pub mod rules_api;
pub mod panel;
