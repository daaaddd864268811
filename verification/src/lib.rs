use vstd::prelude::*;

pub mod agent;
pub mod ai_code;
pub mod ai_edits;
pub mod browser;
pub mod chars;
pub mod context;
pub mod clipboard_image;
pub mod cursor;
pub mod dialogs;
pub mod file_tree;
pub mod files;
pub mod find;
pub mod listing;
pub mod motion;
pub mod scrollbar;
pub mod search;
pub mod state;
pub mod terminal;
pub mod text_buffer;
pub mod tools;
pub mod undo_delete;
pub mod workspace;

verus! {

} // verus!
