//! Highlight ids. Fixed rather than allocated: both halves of the process
//! agree on them, and a UI client only needs them to be consistent within a
//! session.

use vstd::prelude::*;

verus! {

pub const DEFAULT: u64 = 0;
pub const LINE_NR: u64 = 1;
pub const CURSOR_LINE_NR: u64 = 2;
pub const STATUS: u64 = 3;
pub const VISUAL: u64 = 4;
pub const SEARCH: u64 = 5;
pub const ERROR: u64 = 6;
pub const NON_TEXT: u64 = 7;
pub const HEADING: u64 = 8;
pub const CODE: u64 = 9;
pub const EMPHASIS: u64 = 10;
pub const BULLET: u64 = 11;
pub const LINK: u64 = 12;
pub const MODIFIED: u64 = 13;
pub const CURSOR_LINE: u64 = 14;
pub const TREE_DIR: u64 = 15;
pub const TREE_NOTE: u64 = 16;
pub const TREE_FILE: u64 = 17;
pub const TREE_SELECTED: u64 = 18;
pub const GIT_ADD: u64 = 19;
pub const GIT_CHANGE: u64 = 20;
pub const GIT_DELETE: u64 = 21;
pub const DIAG_ERROR: u64 = 22;
pub const DIAG_WARN: u64 = 23;
pub const DIAG_INFO: u64 = 24;
pub const DIAG_HINT: u64 = 25;
pub const PMENU: u64 = 26;
pub const PMENU_SEL: u64 = 27;

} // verus!
