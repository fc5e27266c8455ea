//! Verified logic of a keyd configuration viewer, editor and applier.

pub mod apply_ctx;
pub mod applying;
pub mod backups;
pub mod boards;
pub mod create;
pub mod deadman;
pub mod detect;
pub mod devices;
pub mod diff;
pub mod drafts;
pub mod edit_actions;
pub mod edit_rows;
pub mod edit_ui;
pub mod editing;
pub mod fault;
pub mod fdio;
pub mod glow;
pub mod helper;
pub mod layer;
pub mod monitor;
pub mod names;
pub mod order;
pub mod paths;
pub mod picker;
pub mod prefs;
pub mod probe;
pub mod runs;
pub mod scan;
pub mod sheets;
pub mod snapshot;
pub mod strings;
pub mod text;
pub mod tool;
pub mod tray;
pub mod txn;
pub mod ui_data;
