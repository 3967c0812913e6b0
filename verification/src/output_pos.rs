//! Positions on the output: the cells of an area, counted from its upper
//! left corner.

use vstd::prelude::*;

verus! {

/// A position at which something is printed, relative to an area.
#[derive(Clone, Copy, Debug, PartialEq, Eq, Structural)]
pub struct OutputPos {
    pub x: u16,
    pub y: u16,
}

/// How two positions of the output lie to each other.
#[derive(Clone, Copy, Debug, PartialEq, Eq, Structural)]
pub enum Placed {
    /// Further to the right and further down.
    Beyond,
    /// Further to the left and further up.
    Before,
    /// Neither.
    Level,
}

impl OutputPos {
    /// The position that lies `rhs` away from this one.
    pub fn add(self, rhs: OutputPos) -> (r: OutputPos)
        requires
            self.x + rhs.x <= u16::MAX,
            self.y + rhs.y <= u16::MAX,
        ensures
            r.x == self.x + rhs.x,
            r.y == self.y + rhs.y,
    {
        OutputPos { x: self.x + rhs.x, y: self.y + rhs.y }
    }

    /// The position that lies `rhs` away from this one, if the screen
    /// reaches that far.
    pub fn checked_add(self, rhs: OutputPos) -> (r: Option<OutputPos>)
        ensures
            r == if self.x + rhs.x <= u16::MAX && self.y + rhs.y <= u16::MAX {
                Some(OutputPos { x: (self.x + rhs.x) as u16, y: (self.y + rhs.y) as u16 })
            } else {
                None
            },
    {
        if rhs.x <= u16::MAX - self.x && rhs.y <= u16::MAX - self.y {
            Some(self.add(rhs))
        } else {
            None
        }
    }

    /// Whether this position lies no further to the left and no further
    /// up than `other`.
    pub fn ge(&self, other: &OutputPos) -> (r: bool)
        ensures
            r == (self.x >= other.x && self.y >= other.y),
    {
        self.x >= other.x && self.y >= other.y
    }

    /// Whether this position lies further to the right and further down
    /// than `other`.
    pub fn gt(&self, other: &OutputPos) -> (r: bool)
        ensures
            r == (self.x > other.x && self.y > other.y),
    {
        self.x > other.x && self.y > other.y
    }

    /// Whether this position lies no further to the right and no further
    /// down than `other`.
    pub fn le(&self, other: &OutputPos) -> (r: bool)
        ensures
            r == (self.x <= other.x && self.y <= other.y),
    {
        self.x <= other.x && self.y <= other.y
    }

    /// Whether this position lies further to the left and further up than
    /// `other`.
    pub fn lt(&self, other: &OutputPos) -> (r: bool)
        ensures
            r == (self.x < other.x && self.y < other.y),
    {
        self.x < other.x && self.y < other.y
    }

    /// How this position lies to `other`.
    pub fn placed(&self, other: &OutputPos) -> (r: Placed)
        ensures
            r == if self.x > other.x && self.y > other.y {
                Placed::Beyond
            } else if self.x < other.x && self.y < other.y {
                Placed::Before
            } else {
                Placed::Level
            },
    {
        if self.gt(other) {
            Placed::Beyond
        } else if self.lt(other) {
            Placed::Before
        } else {
            Placed::Level
        }
    }
}

} // verus!
