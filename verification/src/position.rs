//! Positions in a text.

use vstd::prelude::*;

verus! {

/// A position in a text: its byte offset, the number of characters before
/// it, and its line with the column in that line. All are counted from 0.
#[derive(Clone, Copy, Debug, PartialEq, Eq, Structural)]
pub struct Pos {
    pub byte: usize,
    pub ch: usize,
    pub col: usize,
    pub row: usize,
}

impl Default for Pos {
    fn default() -> (r: Self)
        ensures
            r == (Pos { byte: 0, ch: 0, col: 0, row: 0 }),
    {
        Pos { byte: 0, ch: 0, col: 0, row: 0 }
    }
}

impl Pos {
    /// The byte offset as an end user counts it, from 1.
    pub fn byte(&self) -> (r: usize)
        requires
            self.byte < usize::MAX,
        ensures
            r == self.byte + 1,
    {
        self.byte + 1
    }

    /// The character index as an end user counts it, from 1.
    pub fn char(&self) -> (r: usize)
        requires
            self.ch < usize::MAX,
        ensures
            r == self.ch + 1,
    {
        self.ch + 1
    }

    /// The column as an end user counts it, from 1.
    pub fn col(&self) -> (r: usize)
        requires
            self.col < usize::MAX,
        ensures
            r == self.col + 1,
    {
        self.col + 1
    }

    /// The row as an end user counts it, from 1.
    pub fn row(&self) -> (r: usize)
        requires
            self.row < usize::MAX,
        ensures
            r == self.row + 1,
    {
        self.row + 1
    }

    /// The byte offset, from 0.
    pub fn true_byte(&self) -> (r: usize)
        ensures
            r == self.byte,
    {
        self.byte
    }

    /// The character index, from 0.
    pub fn true_char(&self) -> (r: usize)
        ensures
            r == self.ch,
    {
        self.ch
    }

    /// The column, from 0.
    pub fn true_col(&self) -> (r: usize)
        ensures
            r == self.col,
    {
        self.col
    }

    /// The row, from 0.
    pub fn true_row(&self) -> (r: usize)
        ensures
            r == self.row,
    {
        self.row
    }
}

} // verus!
