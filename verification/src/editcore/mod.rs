//! The editing core: nothing in here knows about msgpack, GLSL or windows.

pub mod buffer;
pub mod diff;
pub mod editor;
pub mod buffers;
pub mod command;
pub mod input;
pub mod key;
pub mod panes;
pub mod tree_keys;
pub mod motion;
pub mod operator;
pub mod vcs;
pub mod window;
