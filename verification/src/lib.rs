//! The editing core of a Neovim-protocol host: text storage with undo,
//! buffers, key notation, motions, window layout, VCS signs, line diffs, the
//! picker and what the surfaces are given to draw.

pub mod editcore;
pub mod git;
pub mod grep;
pub mod json;
pub mod ignore;
pub mod keymap;
pub mod lsp;
pub mod luaconf;
pub mod notes;
pub mod picker;
pub mod proto;
pub mod root_ui;
pub mod run;
pub mod text;
pub mod textpos;
