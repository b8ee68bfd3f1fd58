//! The logic of a desktop dock: the pinned list and its rules, the menus, the
//! layered panels, the reveal loop, the window layer, icons and logging.

pub mod apps;
pub mod autohide;
pub mod autostart;
pub mod commands;
pub mod drop;
pub mod geometry;
pub mod glass;
pub mod icons;
pub mod json;
pub mod logging;
pub mod logging_laws;
pub mod menu;
pub mod migration;
pub mod model;
pub mod panel_window;
pub mod picker;
pub mod prompt_window;
pub mod selftest;
pub mod selftest_laws;
pub mod selftest_replies;
pub mod startup;
pub mod store;
pub mod store_laws;
pub mod text;
pub mod tray;
pub mod win_layer;
