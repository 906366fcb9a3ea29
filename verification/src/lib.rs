//! Palimpsest: versioned snapshots of a directory tree, with content-addressed
//! storage of file contents ("inks"), a timeline of epochs and phantoms,
//! line diffs, restore planning, a project registry and a terminal browser.
//!
//! This crate holds the logic of the tool; the command-line program around it
//! performs the file-system, database and terminal work.

pub mod browser;
pub mod browser_exec;
pub mod browser_frame;
pub mod browser_keys;
pub mod browser_modes;
pub mod browser_mouse;
pub mod browser_work;
pub mod compare;
pub mod diff;
pub mod history;
pub mod ident;
pub mod ink;
pub mod number;
pub mod order;
pub mod registry;
pub mod restore;
pub mod snapshot;
pub mod text;
pub mod tree;
pub mod tui;
pub mod types;
pub mod update;
pub mod walker;

