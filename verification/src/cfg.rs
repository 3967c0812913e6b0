//! How a text is laid out on screen: wrapping, tab stops, the glyph of a new
//! line, scrolling gaps and what counts as a word.

use vstd::prelude::*;

verus! {

/// If and how to wrap lines at the end of the screen.
#[derive(Clone, Copy, Debug, PartialEq, Eq, Structural)]
pub enum WrapMethod {
    Width,
    Capped(usize),
    Word,
    NoWrap,
}

impl WrapMethod {
    /// Whether lines are never wrapped.
    #[must_use]
    pub fn is_no_wrap(&self) -> (r: bool)
        ensures
            r == (*self == WrapMethod::NoWrap),
    {
        matches!(self, WrapMethod::NoWrap)
    }

    /// The width at which lines wrap in an area of `width` columns.
    pub open spec fn spec_wrapping_cap(self, width: usize) -> usize {
        match self {
            WrapMethod::Capped(cap) => cap,
            _ => width,
        }
    }

    /// The width at which lines wrap in an area of `width` columns: the cap
    /// of `Capped`, the area's own width otherwise.
    pub fn wrapping_cap(&self, width: usize) -> (r: usize)
        ensures
            r == self.spec_wrapping_cap(width),
    {
        match self {
            WrapMethod::Capped(cap) => *cap,
            _ => width,
        }
    }
}

impl Default for WrapMethod {
    fn default() -> (r: Self)
        ensures
            r == WrapMethod::NoWrap,
    {
        WrapMethod::NoWrap
    }
}

/// Where the tabs are placed on screen, can be regular or varied.
#[derive(Clone, Debug)]
pub enum TabStops {
    /// The same length for every tab.
    Regular(usize),
    /// Tab stops at the given columns, in increasing order.
    Varied(Vec<usize>),
}

/// The index of the first stop of `stops[from..]` that lies beyond column
/// `x`, or the length of `stops` if there is none.
pub open spec fn first_stop_after(stops: Seq<usize>, x: usize, from: int) -> int
    decreases stops.len() - from,
{
    if from < 0 || from >= stops.len() {
        stops.len() as int
    } else if stops[from] > x {
        from
    } else {
        first_stop_after(stops, x, from + 1)
    }
}

impl TabStops {
    /// Whether a tab at column `x` has a stop to go to.
    pub open spec fn has_stop(&self, x: usize) -> bool {
        match self {
            TabStops::Regular(step) => *step > 0,
            TabStops::Varied(stops) => first_stop_after(stops@, x, 0) < stops@.len(),
        }
    }

    /// The number of columns that a tab at column `x` occupies.
    pub open spec fn spec_spaces_at(&self, x: usize) -> int {
        match self {
            TabStops::Regular(step) => *step - (x % *step),
            TabStops::Varied(stops) => stops@[first_stop_after(stops@, x, 0)] - x,
        }
    }

    /// The number of columns that a tab at column `x` occupies: the distance
    /// to the next multiple of the step, or to the first stop beyond `x`.
    pub fn spaces_at(&self, x: usize) -> (r: usize)
        requires
            self.has_stop(x),
        ensures
            r == self.spec_spaces_at(x),
            r >= 1,
    {
        match self {
            TabStops::Regular(step) => *step - (x % *step),
            TabStops::Varied(stops) => {
                let mut i: usize = 0;
                while i < stops.len() && stops[i] <= x
                    invariant
                        i <= stops.len(),
                        first_stop_after(stops@, x, 0) == first_stop_after(stops@, x, i as int),
                    decreases stops.len() - i,
                {
                    i += 1;
                }
                stops[i] - x
            },
        }
    }

    /// The number of columns that a tab at column `x` occupies, which is 1
    /// where the tab has no stop to go to.
    pub open spec fn spec_tab_width(&self, x: usize) -> usize {
        if self.has_stop(x) {
            self.spec_spaces_at(x) as usize
        } else {
            1
        }
    }

    /// The number of columns that a tab at column `x` occupies: the
    /// distance to its stop, or 1 where it has none.
    pub fn tab_width(&self, x: usize) -> (r: usize)
        ensures
            r == self.spec_tab_width(x),
            r >= 1,
    {
        if self.can_tab_at(x) {
            self.spaces_at(x)
        } else {
            1
        }
    }

    /// Whether some stop lies beyond column `x`.
    pub fn can_tab_at(&self, x: usize) -> (r: bool)
        ensures
            r == self.has_stop(x),
    {
        match self {
            TabStops::Regular(step) => *step > 0,
            TabStops::Varied(stops) => {
                let mut i: usize = 0;
                while i < stops.len() && stops[i] <= x
                    invariant
                        i <= stops.len(),
                        first_stop_after(stops@, x, 0) == first_stop_after(stops@, x, i as int),
                    decreases stops.len() - i,
                {
                    i += 1;
                }
                i < stops.len()
            },
        }
    }
}

impl Default for TabStops {
    fn default() -> (r: Self)
        ensures
            r == TabStops::Regular(4),
    {
        TabStops::Regular(4)
    }
}

/// The named result of `char::is_whitespace`: whether a character has the
/// Unicode property `White_Space`.
pub uninterp spec fn is_whitespace(c: char) -> bool;

/// `char::is_whitespace` of std. Its documentation lists the characters of
/// the property `White_Space`; the space, the tab and the line feed are
/// among them.
#[verifier::external_body]
pub(crate) fn char_is_whitespace(c: char) -> (r: bool)
    ensures
        r == is_whitespace(c),
        c == ' ' || c == '\t' || c == '\n' ==> r,
{
    c.is_whitespace()
}

/// Whether to show the new line or not.
#[derive(Clone, Copy, Debug, PartialEq, Eq, Structural)]
pub enum NewLine {
    /// Never show new lines.
    Blank,
    /// Show the given character on every new line.
    AlwaysAs(char),
    /// Show the given character only when there is whitespace at end
    /// of the line.
    AfterSpaceAs(char),
}

impl NewLine {
    /// The glyph of a line feed that follows `last_ch`.
    pub open spec fn spec_new_line_char(self, last_ch: char) -> char {
        match self {
            NewLine::Blank => ' ',
            NewLine::AlwaysAs(c) => c,
            NewLine::AfterSpaceAs(c) => if is_whitespace(last_ch) {
                c
            } else {
                ' '
            },
        }
    }

    /// The glyph that a line feed is rendered as, given the character
    /// rendered just before it.
    pub fn new_line_char(&self, last_ch: char) -> (r: char)
        ensures
            r == self.spec_new_line_char(last_ch),
    {
        match self {
            NewLine::Blank => ' ',
            NewLine::AlwaysAs(c) => *c,
            NewLine::AfterSpaceAs(c) => {
                if char_is_whitespace(last_ch) {
                    *c
                } else {
                    ' '
                }
            },
        }
    }
}

impl Default for NewLine {
    fn default() -> (r: Self)
        ensures
            r == NewLine::Blank,
    {
        NewLine::Blank
    }
}

/// The minimum gaps, in rows and columns, kept between the main cursor and
/// the edges of the area that shows it.
#[derive(Clone, Copy, Debug, PartialEq, Eq, Structural)]
pub struct ScrollOff {
    pub y_gap: usize,
    pub x_gap: usize,
}

impl Default for ScrollOff {
    fn default() -> (r: Self)
        ensures
            r == (ScrollOff { y_gap: 3, x_gap: 3 }),
    {
        ScrollOff { y_gap: 3, x_gap: 3 }
    }
}

/// Whether `c` lies in one of the inclusive `ranges`.
pub open spec fn in_ranges(ranges: Seq<(char, char)>, c: char) -> bool {
    exists|i: int| 0 <= i < ranges.len() && #[trigger] ranges[i].0 <= c && c <= ranges[i].1
}

/// The characters that make up words: a set of inclusive character ranges,
/// none of which holds the space, the tab or the line feed.
#[derive(Clone, Debug)]
pub struct WordChars {
    pub ranges: Vec<(char, char)>,
}

impl WordChars {
    /// Whether `c` is a word character.
    pub open spec fn spec_contains(&self, c: char) -> bool {
        in_ranges(self.ranges@, c)
    }

    /// Whether no blank character is a word character.
    pub open spec fn wf(&self) -> bool {
        !self.spec_contains(' ') && !self.spec_contains('\t') && !self.spec_contains('\n')
    }

    /// The word characters of the given inclusive ranges.
    pub fn new(ranges: Vec<(char, char)>) -> (r: Self)
        requires
            !in_ranges(ranges@, ' '),
            !in_ranges(ranges@, '\t'),
            !in_ranges(ranges@, '\n'),
        ensures
            r.ranges@ == ranges@,
            r.wf(),
    {
        WordChars { ranges }
    }

    /// The word characters of the given ranges, or `None` where one of them
    /// holds the space, the tab or the line feed.
    pub fn try_new(ranges: Vec<(char, char)>) -> (r: Option<Self>)
        ensures
            r is Some <==> !in_ranges(ranges@, ' ') && !in_ranges(ranges@, '\t') && !in_ranges(
                ranges@,
                '\n',
            ),
            r is Some ==> r.unwrap().ranges@ == ranges@ && r.unwrap().wf(),
    {
        let w = WordChars { ranges };
        if w.contains(' ') || w.contains('\t') || w.contains('\n') {
            None
        } else {
            Some(w)
        }
    }

    /// Whether `c` lies in one of the ranges.
    pub fn contains(&self, c: char) -> (r: bool)
        ensures
            r == self.spec_contains(c),
    {
        let mut i: usize = 0;
        while i < self.ranges.len()
            invariant
                i <= self.ranges.len(),
                forall|j: int| 0 <= j < i ==> !(#[trigger] self.ranges@[j].0 <= c && c <= self.ranges@[j].1),
            decreases self.ranges.len() - i,
        {
            let (lo, hi) = self.ranges[i];
            if lo <= c && c <= hi {
                return true;
            }
            i += 1;
        }
        false
    }
}

/// Configuration options for printing.
#[derive(Clone, Debug)]
pub struct PrintCfg {
    /// How to wrap the file.
    pub wrap_method: WrapMethod,
    /// Whether to indent wrapped lines or not.
    pub indent_wrap: bool,
    /// Which places are considered a "tab stop".
    pub tab_stops: TabStops,
    /// Whether (and how) to show new lines.
    pub new_line: NewLine,
    /// The horizontal and vertical gaps between the main cursor and the
    /// edges of the area.
    pub scrolloff: ScrollOff,
    /// Characters that are considered to be part of a word.
    pub word_chars: WordChars,
}

impl PrintCfg {
    /// Whether the tab stops are regular with a positive step, and no blank
    /// is a word character.
    pub open spec fn wf(&self) -> bool {
        &&& self.word_chars.wf()
        &&& self.tab_stops matches TabStops::Regular(step) ==> step > 0
    }
}

impl Default for PrintCfg {
    fn default() -> (r: Self)
        ensures
            r.wrap_method == WrapMethod::NoWrap,
            r.indent_wrap,
            r.new_line == NewLine::Blank,
            r.tab_stops == TabStops::Regular(4),
            r.scrolloff == (ScrollOff { y_gap: 3, x_gap: 3 }),
            r.word_chars.ranges@ == seq![('A', 'Z'), ('a', 'z'), ('_', '_')],
            r.wf(),
    {
        let ranges = vec![('A', 'Z'), ('a', 'z'), ('_', '_')];
        assert(!in_ranges(ranges@, ' ') && !in_ranges(ranges@, '\t') && !in_ranges(ranges@, '\n'));
        PrintCfg {
            wrap_method: WrapMethod::NoWrap,
            indent_wrap: true,
            new_line: NewLine::Blank,
            tab_stops: TabStops::Regular(4),
            scrolloff: ScrollOff { y_gap: 3, x_gap: 3 },
            word_chars: WordChars::new(ranges),
        }
    }
}

} // verus!
