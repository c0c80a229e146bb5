//! The editor's document-independent state: node cursors, multi-selection,
//! the command registry and its filter, preferences, and small UI enums.

pub mod action;
pub mod color;
pub mod doc;
pub mod edit;
pub mod history;
pub mod node_path;
pub mod ops;
pub mod preferences;
pub mod picker;
pub mod preview;
pub mod selection;
pub mod tree;
pub mod ui;
