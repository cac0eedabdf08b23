//! The logic of a GPU-drawn terminal emulator, stated and proved.

pub mod app_settings;
pub mod breakpoints;
pub mod color;
pub mod config;
pub mod decimal;
pub mod deploy;
pub mod key_context;
pub mod keymap;
pub mod keys;
pub mod launch;
pub mod layout;
pub mod menus;
pub mod model;
pub mod moment;
pub mod new_tab;
pub mod open_request;
pub mod order;
pub mod pane_id;
pub mod pane_tree;
pub mod persistence;
pub mod placements;
pub mod prepaint;
pub mod quit;
pub mod regions;
pub mod restore;
pub mod runs;
pub mod search;
pub mod sessions;
pub mod settings_json;
pub mod shell;
pub mod som_db;
pub mod stored_workspace;
pub mod terminal_view;
pub mod text;
pub mod title_bar;
pub mod trusted;
pub mod window_options;
