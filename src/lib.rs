//! Host picker core: an SSH config reader that keeps hosts in file order,
//! and the selection engine that navigates and fuzzy-searches them.

pub mod text;
pub mod ordered_map;
pub mod host_table;
pub mod ssh_config;
pub mod fuzzy;
pub mod tui;

pub use tui::TUI as App;
