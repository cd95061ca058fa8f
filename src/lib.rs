use vstd::prelude::*;

pub mod content;
pub mod editor;
pub mod error;
pub mod prompt;
pub mod row;
pub mod text;

verus! {

/// Width of a tab stop, in rendered columns.
pub const TAB_STOP: usize = 8;

/// How many times quitting must be asked for while there are unsaved changes.
pub const QUIT_TIMES: usize = 3;

} // verus!
