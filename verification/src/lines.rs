//! Texts as lines: positions by line and column, the lines themselves,
//! and how positions follow the splices that are made before them.

use crate::buffer::MAX_LEN;
use crate::cfg::TabStops;
use crate::wrap::{char_width, sat_add, unicode_width};
use vstd::prelude::*;
use vstd::utf8::{encode_scalar, encode_utf8};

verus! {

/// A position in a text of lines: the byte offset in the text, and the
/// column and the row.
#[derive(Clone, Copy, Debug, PartialEq, Eq, Structural)]
pub struct TextPos {
    pub byte: usize,
    pub col: usize,
    pub row: usize,
}

/// A splice of a text: where it began, where what was added ends, and
/// where what was taken ended.
#[derive(Clone, Copy, Debug, PartialEq, Eq, Structural)]
pub struct Splice {
    pub start: TextPos,
    pub added_end: TextPos,
    pub taken_end: TextPos,
}

/// A range of a text, from its start to its end.
#[derive(Clone, Copy, Debug, PartialEq, Eq, Structural)]
pub struct TextRange {
    pub start: TextPos,
    pub end: TextPos,
}

/// Whether `a` comes after `b`: at a greater byte offset, or at the same
/// one and a greater column, or at the same ones and a greater row.
pub open spec fn spec_after(a: TextPos, b: TextPos) -> bool {
    a.byte > b.byte || (a.byte == b.byte && (a.col > b.col || (a.col == b.col && a.row > b.row)))
}

/// Whether `a` comes after `b`.
pub fn pos_after(a: TextPos, b: TextPos) -> (r: bool)
    ensures
        r == spec_after(a, b),
{
    a.byte > b.byte || (a.byte == b.byte && (a.col > b.col || (a.col == b.col && a.row > b.row)))
}

impl Default for TextPos {
    fn default() -> (r: Self)
        ensures
            r == (TextPos { byte: 0, col: 0, row: 0 }),
    {
        TextPos { byte: 0, col: 0, row: 0 }
    }
}

impl TextPos {
    /// The sum of two positions: of their rows and of their bytes, and of
    /// their columns where they stand in one row.
    pub fn add(self, rhs: TextPos) -> (r: TextPos)
        requires
            self.row + rhs.row <= usize::MAX,
            self.byte + rhs.byte <= usize::MAX,
            self.row == rhs.row ==> self.col + rhs.col <= usize::MAX,
        ensures
            r == (TextPos {
                row: (self.row + rhs.row) as usize,
                byte: (self.byte + rhs.byte) as usize,
                col: if self.row == rhs.row {
                    (self.col + rhs.col) as usize
                } else {
                    self.col
                },
            }),
    {
        TextPos {
            row: self.row + rhs.row,
            byte: self.byte + rhs.byte,
            col: if self.row == rhs.row {
                self.col + rhs.col
            } else {
                self.col
            },
        }
    }

    /// The difference of two positions: of their rows and of their bytes,
    /// and of their columns where they stand in one row.
    pub fn sub(self, rhs: TextPos) -> (r: TextPos)
        requires
            self.row >= rhs.row,
            self.byte >= rhs.byte,
            self.row == rhs.row ==> self.col >= rhs.col,
        ensures
            r == (TextPos {
                row: (self.row - rhs.row) as usize,
                byte: (self.byte - rhs.byte) as usize,
                col: if self.row == rhs.row {
                    (self.col - rhs.col) as usize
                } else {
                    self.col
                },
            }),
    {
        TextPos {
            row: self.row - rhs.row,
            byte: self.byte - rhs.byte,
            col: if self.row == rhs.row {
                self.col - rhs.col
            } else {
                self.col
            },
        }
    }

    /// The sum of two positions in one row: of their bytes and of their
    /// columns. In different rows this position stays what it is.
    pub fn col_add(&self, other: TextPos) -> (r: TextPos)
        requires
            self.row == other.row ==> self.byte + other.byte <= usize::MAX && self.col + other.col
                <= usize::MAX,
        ensures
            r == if self.row == other.row {
                TextPos {
                    byte: (self.byte + other.byte) as usize,
                    col: (self.col + other.col) as usize,
                    row: self.row,
                }
            } else {
                *self
            },
    {
        if self.row == other.row {
            TextPos { byte: self.byte + other.byte, col: self.col + other.col, row: self.row }
        } else {
            *self
        }
    }

    /// The difference of two positions in one row: of their bytes and of
    /// their columns. In different rows this position stays what it is.
    pub fn col_sub(&self, other: TextPos) -> (r: TextPos)
        requires
            self.row == other.row ==> self.byte >= other.byte && self.col >= other.col,
        ensures
            r == if self.row == other.row {
                TextPos {
                    byte: (self.byte - other.byte) as usize,
                    col: (self.col - other.col) as usize,
                    row: self.row,
                }
            } else {
                *self
            },
    {
        if self.row == other.row {
            TextPos { byte: self.byte - other.byte, col: self.col - other.col, row: self.row }
        } else {
            *self
        }
    }

    /// The position after a splice that added no less than it took: a
    /// position after the start of the splice moves by what was added
    /// beyond what was taken, its column only if it stands in the row in
    /// which what was taken ended.
    pub open spec fn spec_calibrated(self, splice: Splice) -> TextPos {
        if spec_after(self, splice.start) {
            TextPos {
                byte: (self.byte + (splice.added_end.byte - splice.taken_end.byte)) as usize,
                col: if self.row == splice.taken_end.row {
                    (self.col + (splice.added_end.col - splice.taken_end.col)) as usize
                } else {
                    self.col
                },
                row: (self.row + (splice.added_end.row - splice.taken_end.row)) as usize,
            }
        } else {
            self
        }
    }

    /// Moves the position with a splice that added no less than it took.
    pub fn calibrate(&mut self, splice: &Splice)
        requires
            splice.added_end.byte >= splice.taken_end.byte,
            splice.added_end.col >= splice.taken_end.col,
            splice.added_end.row >= splice.taken_end.row,
            old(self).byte + (splice.added_end.byte - splice.taken_end.byte) <= usize::MAX,
            old(self).col + (splice.added_end.col - splice.taken_end.col) <= usize::MAX,
            old(self).row + (splice.added_end.row - splice.taken_end.row) <= usize::MAX,
        ensures
            *final(self) == old(self).spec_calibrated(*splice),
    {
        if pos_after(*self, splice.start) {
            if self.row == splice.taken_end.row {
                self.col += splice.added_end.col - splice.taken_end.col;
            }
            self.byte += splice.added_end.byte - splice.taken_end.byte;
            self.row += splice.added_end.row - splice.taken_end.row;
        }
    }

    /// This position taken to the column `col` of the line `line`, with
    /// the byte offset that it has there.
    pub fn calibrated_cursor(self, lines: &Vec<TextLine>, line: usize, col: usize) -> (r: TextPos)
        requires
            self.row < lines@.len(),
            line < lines@.len(),
            total_bytes(lines@, lines@.len() as int) <= MAX_LEN,
        ensures
            r.row == line,
            r.col == col,
            r.byte == clamp_signed(
                self.byte,
                offset_of(lines@, line as int, col as int) - offset_of(
                    lines@,
                    self.row as int,
                    self.col as int,
                ),
            ),
    {
        let new = TextPos { row: line, col, byte: self.byte };
        let d = get_byte_distance(lines, self, new);
        TextPos { row: line, col, byte: add_signed(self.byte, d) }
    }
}

/// `a + d`, kept within the numbers that fit.
pub open spec fn clamp_signed(a: usize, d: int) -> usize {
    if a + d < 0 {
        0
    } else if a + d > usize::MAX {
        usize::MAX
    } else {
        (a + d) as usize
    }
}

/// `a + d`, kept within the numbers that fit.
pub fn add_signed(a: usize, d: isize) -> (r: usize)
    ensures
        r == clamp_signed(a, d as int),
{
    crate::cursor::clamped_add(a, d, usize::MAX)
}

/// A line of a text.
#[derive(Clone, Debug)]
pub struct TextLine {
    pub text: String,
}

/// The number of bytes that a character takes in UTF-8.
pub fn char_len(c: char) -> (r: usize)
    ensures
        r == encode_scalar(c as u32).len(),
        1 <= r <= 4,
{
    let v = c as u32;
    if v <= 0x7f {
        1
    } else if v <= 0x7ff {
        2
    } else if v <= 0xffff {
        proof {
            vstd::utf8::char_is_scalar(c);
        }
        3
    } else {
        proof {
            vstd::utf8::char_is_scalar(c);
        }
        4
    }
}

/// The bytes of characters are the bytes of all but the last of them,
/// and then those of the last.
pub proof fn lemma_encode_push(s: Seq<char>, c: char)
    ensures
        encode_utf8(s.push(c)) == encode_utf8(s) + encode_scalar(c as u32),
    decreases s.len(),
{
    let t = s.push(c);
    if s.len() == 0 {
        assert(t.drop_first() =~= Seq::<char>::empty());
        assert(encode_utf8(t.drop_first()) =~= Seq::<u8>::empty());
        assert(encode_utf8(s) =~= Seq::<u8>::empty());
        assert(encode_utf8(t) =~= encode_scalar(c as u32));
    } else {
        lemma_encode_push(s.drop_first(), c);
        assert(t.drop_first() =~= s.drop_first().push(c));
        assert(t[0] == s[0]);
        assert(encode_utf8(t) =~= encode_utf8(s) + encode_scalar(c as u32));
    }
}

/// The number of columns that a character takes at column `x` of a line:
/// a tab goes to its stop, and any other character takes its Unicode
/// width, which is 1 for a control character.
pub open spec fn spec_line_width(c: char, x: usize, tabs: TabStops) -> usize {
    if c == '\t' {
        tabs.spec_tab_width(x)
    } else {
        match unicode_width(c) {
            Some(w) => w,
            None => 1,
        }
    }
}

/// The number of columns that a character takes at column `x` of a line.
pub fn get_char_width(c: char, x: usize, tabs: &TabStops) -> (r: usize)
    ensures
        r == spec_line_width(c, x, *tabs),
{
    if c == '\t' {
        tabs.tab_width(x)
    } else {
        match char_width(c) {
            Some(w) => w,
            None => 1,
        }
    }
}

/// The width of the blanks with which `s` begins from `i` on, the first
/// of them at column `x`.
pub open spec fn indent_from(s: Seq<char>, i: int, x: usize, tabs: TabStops) -> usize
    decreases s.len() - i,
{
    if i < 0 || i >= s.len() || !(s[i] == ' ' || s[i] == '\t') {
        x
    } else {
        indent_from(s, i + 1, sat_add(x, spec_line_width(s[i], x, tabs)), tabs)
    }
}

/// The column reached after the first `n` characters of `s`.
pub open spec fn distance_to(s: Seq<char>, n: int, tabs: TabStops) -> usize
    decreases n,
{
    if n <= 0 || n > s.len() {
        0
    } else {
        let x = distance_to(s, n - 1, tabs);
        sat_add(x, spec_line_width(s[n - 1], x, tabs))
    }
}

/// The column, counted in characters, and the columns left over, at the
/// visual distance `min_dist` in `s`, looked for from the character `i`
/// on, which stands at the distance `x`: the first character at or after
/// that distance, with what it stands beyond it; or the last character of
/// all, where none is.
pub open spec fn col_at(s: Seq<char>, i: int, x: usize, min_dist: usize, tabs: TabStops) -> (
    usize,
    usize,
)
    decreases s.len() - i,
{
    if i < 0 || i >= s.len() {
        (
            if s.len() == 0 {
                0
            } else {
                (s.len() - 1) as usize
            },
            if x >= min_dist {
                (x - min_dist) as usize
            } else {
                0
            },
        )
    } else if x >= min_dist {
        (i as usize, (x - min_dist) as usize)
    } else {
        col_at(s, i + 1, sat_add(x, spec_line_width(s[i], x, tabs)), min_dist, tabs)
    }
}

impl TextLine {
    /// The line of a string.
    pub fn new(text: &str) -> (r: TextLine)
        ensures
            r.text@ == text@,
    {
        TextLine { text: text.to_owned() }
    }

    /// The text of the line.
    pub fn text(&self) -> (r: &str)
        ensures
            r@ == self.text@,
    {
        self.text.as_str()
    }

    /// The number of characters of the line.
    pub fn char_count(&self) -> (r: usize)
        ensures
            r == self.text@.len(),
    {
        self.text.as_str().unicode_len()
    }

    /// The number of bytes of the line.
    pub fn len_bytes(&self) -> (r: usize)
        ensures
            r == encode_utf8(self.text@).len(),
    {
        self.text.as_str().as_bytes().len()
    }

    /// The indentation of the line: the width of the blanks with which it
    /// begins.
    pub fn indent(&self, tabs: &TabStops) -> (r: usize)
        ensures
            r == indent_from(self.text@, 0, 0, *tabs),
    {
        let s = self.text.as_str();
        let n = s.unicode_len();
        let mut x: usize = 0;
        let mut i: usize = 0;
        while i < n
            invariant
                i <= n == s@.len(),
                s@ == self.text@,
                indent_from(s@, 0, 0, *tabs) == indent_from(s@, i as int, x, *tabs),
            decreases n - i,
        {
            let c = s.get_char(i);
            if c == ' ' || c == '\t' {
                x = x.saturating_add(get_char_width(c, x, tabs));
                i += 1;
            } else {
                return x;
            }
        }
        x
    }

    /// The byte offset in the line of the column `col`: the bytes of the
    /// characters before it, or of all where the line has no such column.
    pub fn get_line_byte_at(&self, col: usize) -> (r: usize)
        ensures
            r == encode_utf8(
                self.text@.take(
                    if col < self.text@.len() {
                        col as int
                    } else {
                        self.text@.len() as int
                    },
                ),
            ).len(),
    {
        let s = self.text.as_str();
        let n = s.unicode_len();
        let upto = if col < n {
            col
        } else {
            n
        };
        let total = s.as_bytes().len();
        let mut b: usize = 0;
        let mut i: usize = 0;
        proof {
            assert(s@.take(0) =~= Seq::<char>::empty());
            assert(encode_utf8(s@.take(0)) =~= Seq::<u8>::empty());
        }
        while i < upto
            invariant
                i <= upto <= n == s@.len(),
                s@ == self.text@,
                total == encode_utf8(s@).len(),
                b == encode_utf8(s@.take(i as int)).len(),
                b <= 4 * i,
            decreases upto - i,
        {
            let c = s.get_char(i);
            proof {
                lemma_encode_push(s@.take(i as int), c);
                assert(s@.take(i + 1) =~= s@.take(i as int).push(c));
            }
            b = b.saturating_add(char_len(c));
            proof {
                lemma_prefix_bytes(s@, i + 1);
            }
            i += 1;
        }
        b
    }

    /// The visual distance from the start of the line to the column
    /// `col`.
    pub fn get_distance_to_col(&self, col: usize, tabs: &TabStops) -> (r: usize)
        ensures
            r == distance_to(
                self.text@,
                if col < self.text@.len() {
                    col as int
                } else {
                    self.text@.len() as int
                },
                *tabs,
            ),
    {
        let s = self.text.as_str();
        let n = s.unicode_len();
        let upto = if col < n {
            col
        } else {
            n
        };
        let mut x: usize = 0;
        let mut i: usize = 0;
        while i < upto
            invariant
                i <= upto <= n == s@.len(),
                s@ == self.text@,
                x == distance_to(s@, i as int, *tabs),
            decreases upto - i,
        {
            let c = s.get_char(i);
            x = x.saturating_add(get_char_width(c, x, tabs));
            i += 1;
        }
        x
    }

    /// The column at the visual distance `min_dist` from the start of the
    /// line, and the columns by which the character there stands beyond
    /// that distance.
    pub fn get_col_at_distance(&self, min_dist: usize, tabs: &TabStops) -> (r: (usize, usize))
        ensures
            r == col_at(self.text@, 0, 0, min_dist, *tabs),
    {
        let s = self.text.as_str();
        let n = s.unicode_len();
        let mut x: usize = 0;
        let mut i: usize = 0;
        while i < n
            invariant
                i <= n == s@.len(),
                s@ == self.text@,
                col_at(s@, 0, 0, min_dist, *tabs) == col_at(s@, i as int, x, min_dist, *tabs),
            decreases n - i,
        {
            if x >= min_dist {
                return (i, x - min_dist);
            }
            let c = s.get_char(i);
            x = x.saturating_add(get_char_width(c, x, tabs));
            i += 1;
        }
        (
            if n == 0 {
                0
            } else {
                n - 1
            },
            if x >= min_dist {
                x - min_dist
            } else {
                0
            },
        )
    }
}

/// The bytes of the first characters of a string are no more than those
/// of all of it.
pub proof fn lemma_prefix_bytes(s: Seq<char>, n: int)
    requires
        0 <= n <= s.len(),
    ensures
        encode_utf8(s.take(n)).len() <= encode_utf8(s).len(),
        encode_utf8(s.take(n)).len() <= 4 * n,
    decreases s.len() - n,
{
    lemma_all_bytes(s.take(n));
    if n < s.len() {
        lemma_prefix_bytes(s, n + 1);
        lemma_encode_push(s.take(n), s[n]);
        assert(s.take(n + 1) =~= s.take(n).push(s[n]));
    } else {
        assert(s.take(n) =~= s);
    }
}

/// Characters take no more than four bytes each.
pub proof fn lemma_all_bytes(s: Seq<char>)
    ensures
        encode_utf8(s).len() <= 4 * s.len(),
    decreases s.len(),
{
    if s.len() > 0 {
        lemma_all_bytes(s.drop_first());
        vstd::utf8::char_is_scalar(s[0]);
    }
}

/// The number of bytes of the first `n` lines.
pub open spec fn total_bytes(lines: Seq<TextLine>, n: int) -> int
    decreases n,
{
    if n <= 0 || n > lines.len() {
        0
    } else {
        total_bytes(lines, n - 1) + encode_utf8(lines[n - 1].text@).len()
    }
}

/// The byte offset in a text of lines of the column `col` of the line
/// `row`: the bytes of the lines before it, and those of the characters
/// of the line before the column.
pub open spec fn offset_of(lines: Seq<TextLine>, row: int, col: int) -> int {
    total_bytes(lines, row) + encode_utf8(
        lines[row].text@.take(
            if col < lines[row].text@.len() {
                col
            } else {
                lines[row].text@.len() as int
            },
        ),
    ).len()
}

/// The bytes of the first lines are no more than those of all lines.
pub proof fn lemma_total_bytes(lines: Seq<TextLine>, a: int, b: int)
    requires
        0 <= a <= b <= lines.len(),
    ensures
        0 <= total_bytes(lines, a) <= total_bytes(lines, b),
    decreases b,
{
    if a < b {
        lemma_total_bytes(lines, a, b - 1);
    } else if a > 0 {
        lemma_total_bytes(lines, a - 1, a - 1);
    }
}

/// The distance in bytes from one position of a text of lines to another:
/// positive where the target lies further on.
pub fn get_byte_distance(lines: &Vec<TextLine>, current: TextPos, target: TextPos) -> (r: isize)
    requires
        current.row < lines@.len(),
        target.row < lines@.len(),
        total_bytes(lines@, lines@.len() as int) <= MAX_LEN,
    ensures
        r == offset_of(lines@, target.row as int, target.col as int) - offset_of(
            lines@,
            current.row as int,
            current.col as int,
        ),
{
    let n = lines.len();
    let t = lines[target.row].get_line_byte_at(target.col);
    let c = lines[current.row].get_line_byte_at(current.col);
    proof {
        lemma_total_bytes(lines@, target.row + 1, n as int);
        lemma_total_bytes(lines@, current.row + 1, n as int);
        lemma_total_bytes(lines@, 0, target.row as int);
        lemma_total_bytes(lines@, 0, current.row as int);
        let tl = lines@[target.row as int].text@;
        let cl = lines@[current.row as int].text@;
        lemma_prefix_bytes(
            tl,
            if target.col < tl.len() {
                target.col as int
            } else {
                tl.len() as int
            },
        );
        lemma_prefix_bytes(
            cl,
            if current.col < cl.len() {
                current.col as int
            } else {
                cl.len() as int
            },
        );
    }
    let (lo, hi) = if target.row > current.row {
        (current.row, target.row)
    } else {
        (target.row, current.row)
    };
    let mut between: usize = 0;
    let mut i: usize = lo;
    while i < hi
        invariant
            lo <= i <= hi < n == lines@.len(),
            total_bytes(lines@, n as int) <= MAX_LEN,
            between == total_bytes(lines@, i as int) - total_bytes(lines@, lo as int),
            between <= MAX_LEN,
        decreases hi - i,
    {
        proof {
            lemma_total_bytes(lines@, i + 1, n as int);
            lemma_total_bytes(lines@, 0, lo as int);
        }
        between += lines[i].len_bytes();
        i += 1;
    }
    if target.row > current.row {
        t as isize - c as isize + between as isize
    } else {
        t as isize - c as isize - between as isize
    }
}

/// What the splices before a cursor have added: lines, bytes, and columns
/// in the row in which the last one ended.
#[derive(Clone, Copy, Debug, PartialEq, Eq, Structural)]
pub struct SpliceAdder {
    pub last_pos: TextPos,
    pub lines: isize,
    pub bytes: isize,
    pub cols: isize,
}

impl Default for SpliceAdder {
    fn default() -> (r: Self)
        ensures
            r == (SpliceAdder {
                last_pos: TextPos { byte: 0, col: 0, row: 0 },
                lines: 0,
                bytes: 0,
                cols: 0,
            }),
    {
        SpliceAdder { last_pos: TextPos { byte: 0, col: 0, row: 0 }, lines: 0, bytes: 0, cols: 0 }
    }
}

/// Whether a number fits in a signed word.
pub open spec fn fits_isize(x: int) -> bool {
    isize::MIN <= x <= isize::MAX
}

impl SpliceAdder {
    /// The adder after a splice: the lines and the bytes that the splice
    /// added are added to it; the columns too, if the splice took up to
    /// the row in which the one before ended, and otherwise they are
    /// those of this splice alone.
    pub open spec fn spec_calibrated(self, splice: Splice) -> SpliceAdder {
        let sum = splice.added_end.col - splice.taken_end.col;
        SpliceAdder {
            last_pos: splice.added_end,
            lines: (self.lines + splice.added_end.row - splice.taken_end.row) as isize,
            bytes: (self.bytes + splice.added_end.byte - splice.taken_end.byte) as isize,
            cols: if self.last_pos.row == splice.taken_end.row {
                (self.cols + sum) as isize
            } else {
                sum as isize
            },
        }
    }

    /// Takes a splice into account.
    pub fn calibrate(&mut self, splice: &Splice)
        requires
            splice.added_end.row <= MAX_LEN && splice.taken_end.row <= MAX_LEN,
            splice.added_end.byte <= MAX_LEN && splice.taken_end.byte <= MAX_LEN,
            splice.added_end.col <= MAX_LEN && splice.taken_end.col <= MAX_LEN,
            fits_isize(old(self).lines + splice.added_end.row - splice.taken_end.row),
            fits_isize(old(self).bytes + splice.added_end.byte - splice.taken_end.byte),
            fits_isize(old(self).cols + splice.added_end.col - splice.taken_end.col),
        ensures
            *final(self) == old(self).spec_calibrated(*splice),
    {
        self.lines = self.lines + (splice.added_end.row as isize - splice.taken_end.row as isize);
        self.bytes = self.bytes + (splice.added_end.byte as isize - splice.taken_end.byte as isize);
        let sum = splice.added_end.col as isize - splice.taken_end.col as isize;
        if self.last_pos.row == splice.taken_end.row {
            self.cols = self.cols + sum;
        } else {
            self.cols = sum;
        }
        self.last_pos = splice.added_end;
    }
}

/// A position moved by what the splices before it added: by the lines
/// and the bytes, and by the columns if it then stands in the row in
/// which the last splice ended.
pub open spec fn spec_relative(pos: TextPos, adder: SpliceAdder) -> TextPos {
    let row = clamp_signed(pos.row, adder.lines as int);
    TextPos {
        row,
        byte: clamp_signed(pos.byte, adder.bytes as int),
        col: if row == adder.last_pos.row {
            clamp_signed(pos.col, adder.cols as int)
        } else {
            pos.col
        },
    }
}

/// Moves a position by what the splices before it added.
pub fn relative_add(pos: &mut TextPos, adder: &SpliceAdder)
    ensures
        *final(pos) == spec_relative(*old(pos), *adder),
{
    pos.row = add_signed(pos.row, adder.lines);
    pos.byte = add_signed(pos.byte, adder.bytes);
    if pos.row == adder.last_pos.row {
        pos.col = add_signed(pos.col, adder.cols);
    }
}

/// A cursor in a text of lines: where it was when it was shown last,
/// where it is, the anchor of its selection, and the visual column that
/// it keeps to.
#[derive(Clone, Copy, Debug, PartialEq, Eq, Structural)]
pub struct TextCursor {
    pub prev: Option<TextPos>,
    pub cur: TextPos,
    pub anchor: Option<TextPos>,
    pub desired_x: usize,
}

impl TextCursor {
    /// The range of the selection: from the cursor or the anchor,
    /// whichever comes first, to the other. Without an anchor it is empty.
    pub fn range(&self) -> (r: TextRange)
        ensures
            r == match self.anchor {
                Some(a) => if spec_after(self.cur, a) {
                    TextRange { start: a, end: self.cur }
                } else {
                    TextRange { start: self.cur, end: a }
                },
                None => TextRange { start: self.cur, end: self.cur },
            },
    {
        match self.anchor {
            Some(a) => {
                if pos_after(self.cur, a) {
                    TextRange { start: a, end: self.cur }
                } else {
                    TextRange { start: self.cur, end: a }
                }
            },
            None => TextRange { start: self.cur, end: self.cur },
        }
    }

    /// Notes that the cursor was shown where it is.
    pub fn update(&mut self)
        ensures
            *final(self) == (TextCursor { prev: Some(old(self).cur), ..*old(self) }),
    {
        self.prev = Some(self.cur);
    }

    /// Where the cursor was when it was shown last, or where it is if it
    /// was not shown yet.
    pub fn prev(&self) -> (r: TextPos)
        ensures
            r == match self.prev {
                Some(p) => p,
                None => self.cur,
            },
    {
        match self.prev {
            Some(p) => p,
            None => self.cur,
        }
    }

    /// Where the cursor is.
    pub fn cur(&self) -> (r: TextPos)
        ensures
            r == self.cur,
    {
        self.cur
    }

    /// The anchor of the selection.
    pub fn anchor(&self) -> (r: Option<TextPos>)
        ensures
            r == self.anchor,
    {
        self.anchor
    }

    /// Moves the cursor and its anchor by what the splices before them
    /// added.
    pub fn calibrate(&mut self, adder: &SpliceAdder)
        ensures
            *final(self) == (TextCursor {
                cur: spec_relative(old(self).cur, *adder),
                anchor: match old(self).anchor {
                    Some(a) => Some(spec_relative(a, *adder)),
                    None => None,
                },
                ..*old(self)
            }),
    {
        let mut cur = self.cur;
        relative_add(&mut cur, adder);
        self.cur = cur;
        if let Some(a) = self.anchor {
            let mut a = a;
            relative_add(&mut a, adder);
            self.anchor = Some(a);
        }
    }
}

/// Where a column that lies `col` characters after the start of the line
/// `row` stands: in the first line from there on that has so many
/// characters left, or at the end of the last line.
pub open spec fn hor_fwd(lines: Seq<TextLine>, row: int, col: int) -> (int, int)
    decreases lines.len() - row,
{
    if row < 0 || row >= lines.len() || col < lines[row].text@.len() {
        (row, col)
    } else if row + 1 >= lines.len() {
        (row, lines[row].text@.len() as int)
    } else {
        hor_fwd(lines, row + 1, col - lines[row].text@.len())
    }
}

/// Where a column that lies `-col` characters before the start of the
/// line `row` stands: in the last line before it that has so many
/// characters, or at the start of the first line.
pub open spec fn hor_bwd(lines: Seq<TextLine>, row: int, col: int) -> (int, int)
    decreases row,
{
    if col >= 0 || row > lines.len() {
        (row, col)
    } else if row <= 0 {
        (row, 0)
    } else {
        hor_bwd(lines, row - 1, col + lines[row - 1].text@.len())
    }
}

/// Where a cursor at the column `col` of the line `row` stands after it
/// moved by `count` characters, over the ends of lines.
pub open spec fn hor_moved(lines: Seq<TextLine>, row: int, col: int, count: int) -> (int, int) {
    if count >= 0 {
        hor_fwd(lines, row, col + count)
    } else {
        hor_bwd(lines, row, col + count)
    }
}

/// The lines of a text are no longer than the text.
pub proof fn lemma_line_fits(lines: Seq<TextLine>, i: int)
    requires
        0 <= i < lines.len(),
    ensures
        lines[i].text@.len() <= encode_utf8(lines[i].text@).len() <= total_bytes(
            lines,
            lines.len() as int,
        ),
{
    lemma_total_bytes(lines, i + 1, lines.len() as int);
    lemma_total_bytes(lines, 0, i);
    lemma_chars_fit(lines[i].text@);
}

/// Characters take a byte each at least.
pub proof fn lemma_chars_fit(s: Seq<char>)
    ensures
        s.len() <= encode_utf8(s).len(),
    decreases s.len(),
{
    if s.len() > 0 {
        lemma_chars_fit(s.drop_first());
        vstd::utf8::char_is_scalar(s[0]);
    }
}

impl TextCursor {
    /// A cursor without a selection at a position of a text of lines.
    pub fn new(pos: TextPos, lines: &Vec<TextLine>, tabs: &TabStops) -> (r: TextCursor)
        requires
            pos.row < lines@.len(),
        ensures
            r.prev is None,
            r.cur == pos,
            r.anchor is None,
            r.desired_x == distance_to(
                lines@[pos.row as int].text@,
                if pos.col < lines@[pos.row as int].text@.len() {
                    pos.col as int
                } else {
                    lines@[pos.row as int].text@.len() as int
                },
                *tabs,
            ),
    {
        TextCursor {
            prev: None,
            cur: pos,
            anchor: None,
            desired_x: lines[pos.row].get_distance_to_col(pos.col, tabs),
        }
    }

    /// Puts the cursor at the column `col` of the line `row`, with the
    /// byte offset that it has there; the visual column that the cursor
    /// keeps to stays what it is.
    fn place(&mut self, lines: &Vec<TextLine>, row: usize, col: usize)
        requires
            old(self).cur.row < lines@.len(),
            row < lines@.len(),
            total_bytes(lines@, lines@.len() as int) <= MAX_LEN,
        ensures
            final(self).cur == (TextPos {
                row,
                col,
                byte: clamp_signed(
                    old(self).cur.byte,
                    offset_of(lines@, row as int, col as int) - offset_of(
                        lines@,
                        old(self).cur.row as int,
                        old(self).cur.col as int,
                    ),
                ),
            }),
            final(self).prev == old(self).prev,
            final(self).anchor == old(self).anchor,
            final(self).desired_x == old(self).desired_x,
    {
        self.cur = self.cur.calibrated_cursor(lines, row, col);
    }

    /// Moves the cursor by `count` lines, up or down, and no further than
    /// the first and the last line. In its new line the cursor goes to
    /// the column at the visual column that it keeps to.
    pub fn move_ver(&mut self, count: i32, lines: &Vec<TextLine>, tabs: &TabStops)
        requires
            old(self).cur.row < lines@.len(),
            total_bytes(lines@, lines@.len() as int) <= MAX_LEN,
        ensures
            final(self).cur.row == clamp_signed_to(
                old(self).cur.row,
                count as int,
                (lines@.len() - 1) as usize,
            ),
            final(self).cur.col == col_at(
                lines@[final(self).cur.row as int].text@,
                0,
                0,
                old(self).desired_x,
                *tabs,
            ).0,
            final(self).cur.byte == clamp_signed(
                old(self).cur.byte,
                offset_of(lines@, final(self).cur.row as int, final(self).cur.col as int)
                    - offset_of(lines@, old(self).cur.row as int, old(self).cur.col as int),
            ),
            final(self).prev == old(self).prev,
            final(self).anchor == old(self).anchor,
            final(self).desired_x == old(self).desired_x,
    {
        let last = lines.len() - 1;
        let row = crate::cursor::clamped_add(
            if self.cur.row < last {
                self.cur.row
            } else {
                last
            },
            count as isize,
            last,
        );
        let (col, _) = lines[row].get_col_at_distance(self.desired_x, tabs);
        self.place(lines, row, col);
    }

    /// Moves the cursor by `count` characters, over the ends of lines, and
    /// no further than the start and the end of the text. The cursor
    /// then keeps to the visual column at which it stands.
    pub fn move_hor(&mut self, count: i32, lines: &Vec<TextLine>, tabs: &TabStops)
        requires
            old(self).cur.row < lines@.len(),
            old(self).cur.col <= MAX_LEN,
            total_bytes(lines@, lines@.len() as int) <= MAX_LEN,
        ensures
            (final(self).cur.row as int, final(self).cur.col as int) == hor_moved(
                lines@,
                old(self).cur.row as int,
                old(self).cur.col as int,
                count as int,
            ),
            final(self).cur.row < lines@.len(),
            final(self).cur.byte == clamp_signed(
                old(self).cur.byte,
                offset_of(lines@, final(self).cur.row as int, final(self).cur.col as int)
                    - offset_of(lines@, old(self).cur.row as int, old(self).cur.col as int),
            ),
            final(self).desired_x == distance_to(
                lines@[final(self).cur.row as int].text@,
                if final(self).cur.col < lines@[final(self).cur.row as int].text@.len() {
                    final(self).cur.col as int
                } else {
                    lines@[final(self).cur.row as int].text@.len() as int
                },
                *tabs,
            ),
            final(self).prev == old(self).prev,
            final(self).anchor == old(self).anchor,
    {
        let n = lines.len();
        let mut row: usize = self.cur.row;
        let mut col: i64 = self.cur.col as i64 + count as i64;
        let ghost goal = hor_moved(lines@, row as int, self.cur.col as int, count as int);
        if count >= 0 {
            let mut done = false;
            while !done
                invariant
                    row < n == lines@.len(),
                    0 <= col <= 0x1_0000_0000_0000,
                    total_bytes(lines@, n as int) <= MAX_LEN,
                    !done ==> hor_fwd(lines@, row as int, col as int) == goal,
                    done ==> (row as int, col as int) == goal,
                    done ==> col <= MAX_LEN,
                decreases n - row + if done { 0int } else { 1int },
            {
                proof {
                    lemma_line_fits(lines@, row as int);
                }
                let chars = lines[row].char_count() as i64;
                if col < chars {
                    done = true;
                } else if row + 1 >= n {
                    col = chars;
                    done = true;
                } else {
                    col = col - chars;
                    row += 1;
                }
            }
        } else {
            while col < 0 && row > 0
                invariant
                    row < n == lines@.len(),
                    -0x1_0000_0000_0000 <= col <= MAX_LEN,
                    total_bytes(lines@, n as int) <= MAX_LEN,
                    hor_bwd(lines@, row as int, col as int) == goal,
                decreases row,
            {
                proof {
                    lemma_line_fits(lines@, row - 1);
                }
                col = col + lines[row - 1].char_count() as i64;
                row -= 1;
            }
            proof {
                assert(hor_bwd(lines@, row as int, col as int) == if col >= 0 {
                    (row as int, col as int)
                } else {
                    (row as int, 0int)
                });
            }
            if col < 0 {
                col = 0;
            }
        }
        assert((row as int, col as int) == goal);
        let col = col as usize;
        self.place(lines, row, col);
        self.desired_x = lines[row].get_distance_to_col(col, tabs);
    }

    /// Moves the cursor to a line and a column, and no further than the
    /// end of the line. The cursor then keeps to the visual column at
    /// which it stands.
    pub fn move_to(&mut self, pos: TextPos, lines: &Vec<TextLine>, tabs: &TabStops)
        requires
            old(self).cur.row < lines@.len(),
            pos.row < lines@.len(),
            total_bytes(lines@, lines@.len() as int) <= MAX_LEN,
        ensures
            final(self).cur.row == pos.row,
            final(self).cur.col == if pos.col < lines@[pos.row as int].text@.len() {
                pos.col
            } else {
                lines@[pos.row as int].text@.len() as usize
            },
            final(self).cur.byte == clamp_signed(
                old(self).cur.byte,
                offset_of(lines@, final(self).cur.row as int, final(self).cur.col as int)
                    - offset_of(lines@, old(self).cur.row as int, old(self).cur.col as int),
            ),
            final(self).desired_x == distance_to(
                lines@[pos.row as int].text@,
                final(self).cur.col as int,
                *tabs,
            ),
            final(self).prev == old(self).prev,
            final(self).anchor == old(self).anchor,
    {
        let chars = lines[pos.row].char_count();
        let col = if pos.col < chars {
            pos.col
        } else {
            chars
        };
        self.place(lines, pos.row, col);
        self.desired_x = lines[pos.row].get_distance_to_col(col, tabs);
    }
}

/// `a + d`, kept between 0 and `max`.
pub open spec fn clamp_signed_to(a: usize, d: int, max: usize) -> usize {
    if a + d < 0 {
        0
    } else if a + d > max {
        max
    } else {
        (a + d) as usize
    }
}

/// A cursor in a text of lines that can edit and cannot move: it has the
/// adder of the splices of its batch with it.
#[derive(Clone, Copy, Debug, PartialEq, Eq, Structural)]
pub struct EditCursor {
    pub cursor: TextCursor,
    pub adder: SpliceAdder,
}

impl EditCursor {
    /// The editing view of a cursor.
    pub fn new(cursor: TextCursor, adder: SpliceAdder) -> (r: Self)
        ensures
            r == (EditCursor { cursor, adder }),
    {
        EditCursor { cursor, adder }
    }

    /// The range of the selection.
    pub fn cursor_range(&self) -> (r: TextRange)
        ensures
            r == match self.cursor.anchor {
                Some(a) => if spec_after(self.cursor.cur, a) {
                    TextRange { start: a, end: self.cursor.cur }
                } else {
                    TextRange { start: self.cursor.cur, end: a }
                },
                None => TextRange { start: self.cursor.cur, end: self.cursor.cur },
            },
    {
        self.cursor.range()
    }

    /// Takes a splice into account, for the cursors that come later.
    pub fn calibrate(&mut self, splice: &Splice)
        requires
            splice.added_end.row <= MAX_LEN && splice.taken_end.row <= MAX_LEN,
            splice.added_end.byte <= MAX_LEN && splice.taken_end.byte <= MAX_LEN,
            splice.added_end.col <= MAX_LEN && splice.taken_end.col <= MAX_LEN,
            fits_isize(old(self).adder.lines + splice.added_end.row - splice.taken_end.row),
            fits_isize(old(self).adder.bytes + splice.added_end.byte - splice.taken_end.byte),
            fits_isize(old(self).adder.cols + splice.added_end.col - splice.taken_end.col),
        ensures
            final(self).cursor == old(self).cursor,
            final(self).adder == old(self).adder.spec_calibrated(*splice),
    {
        self.adder.calibrate(splice);
    }
}

/// A cursor in a text of lines that can move and cannot edit.
#[derive(Clone, Copy, Debug, PartialEq, Eq, Structural)]
pub struct MoveCursor {
    pub cursor: TextCursor,
}

impl MoveCursor {
    /// The moving view of a cursor.
    pub fn new(cursor: TextCursor) -> (r: Self)
        ensures
            r.cursor == cursor,
    {
        MoveCursor { cursor }
    }

    /// Puts the anchor where the cursor is.
    pub fn set_anchor(&mut self)
        ensures
            final(self).cursor == (TextCursor {
                anchor: Some(old(self).cursor.cur),
                ..old(self).cursor
            }),
    {
        self.cursor.anchor = Some(self.cursor.cur);
    }

    /// Removes the anchor.
    pub fn unset_anchor(&mut self)
        ensures
            final(self).cursor == (TextCursor { anchor: None, ..old(self).cursor }),
    {
        self.cursor.anchor = None;
    }
}

} // verus!
