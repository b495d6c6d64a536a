//! Manage `.env` files for many repositories and many sites from one encrypted store.

pub mod cli;
pub mod ordered_map;
pub mod text;
pub mod env_file;
pub mod registry;
pub mod merge;
pub mod crypto;
pub mod paths;
pub mod store;
pub mod format;
pub mod commands;
pub mod diff;
pub mod tui;
pub mod screen;
pub mod labels;

