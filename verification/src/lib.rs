//! A small modeless text editor's core: a gap buffer with undo/redo,
//! incremental search, a fuzzy file picker, key bindings, configuration and
//! the decisions taken on language-server messages.

pub mod text;
pub mod paths;
pub mod buffer;
pub mod search;
pub mod input;
pub mod config;
pub mod picker;
pub mod lsp;
pub mod json;
pub mod syntax;
pub mod view;
pub mod editor;
