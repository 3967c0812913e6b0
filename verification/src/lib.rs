//! The core of a modal, multi-cursor terminal text editor: a tagged text
//! model over a gap buffer, an undoable history of changes, a cursor engine,
//! the wrapping and scrolling rules of the print pipeline, the rectangle
//! tree of the window layout, and the keys and commands that drive them.

pub mod buffer;
pub mod builder;
pub mod cfg;
pub mod commands;
pub mod cursor;
pub mod edges;
pub mod edit;
pub mod file;
pub mod forms;
pub mod helper;
pub mod history;
pub mod input;
pub mod keys;
pub mod label;
pub mod layout;
pub mod line_numbers;
pub mod lines;
pub mod output_pos;
pub mod parts;
pub mod position;
pub mod print;
pub mod print_info;
pub mod registry;
pub mod search;
pub mod status;
pub mod tags;
pub mod text;
pub mod widgets;
pub mod windows;
pub mod wrap;

use vstd::prelude::*;

verus! {

/// An accumulator of the shifts that earlier edits of a batch cause to the
/// cursors that come after them.
#[derive(Clone, Copy, Debug, Default)]
pub struct EditAccum {
    pub chars: isize,
    pub changes: isize,
}

} // verus!
