//! Verified core of a small tabbed text editor: snapshot undo history,
//! find and replace, file decoding and line endings, tab bookkeeping,
//! keyboard shortcuts and theme colour codes.
use vstd::prelude::*;

pub mod text;
pub mod search;
pub mod matching;
pub mod find_replace;
pub mod file_io;
pub mod tab;
pub mod tabs;
pub mod shortcuts;
pub mod line_numbers;
pub mod theme;
pub mod cli;
pub mod undo;

verus! {

} // verus!
