//! Text editing core of the uzumaki UI framework: a line-based text buffer
//! addressed by grapheme clusters, with selection, editing and cursor movement.

pub mod edit_spec;
pub mod graphemes;
pub mod selection;
pub mod strings;
pub mod layout;
pub mod text_model;
pub mod words;
pub mod laws;
pub mod input;
pub mod clipboard;
pub mod paths;
pub mod cli;
pub mod boot;
pub mod vfs;
pub mod release;
