//! Cursors: a caret with an optional anchor, and the ordered set of the
//! cursors of a text.

use crate::buffer::{chars_upto, MAX_LEN};
use crate::cfg::PrintCfg;
use crate::history::Moment;
use crate::position::Pos;
use crate::text::{
    char_start_from, line_end_of, line_start_of, point_of, row_start_from, snap_of, valid_pos, Text,
};
use crate::wrap::{
    col_at_dist, items_width, len_from, part_len, run_upto, sat_add, spec_col_at_dist, spec_items_width, starts_of, wrap_starts, wrapped, wrapped_of, WrapItem,
};
use crate::cfg::TabStops;
use crate::parts::Part;
use vstd::prelude::*;

verus! {

/// A cursor: the caret, the anchor of its selection if it has one, the
/// index of its latest change in the current moment, and the visual
/// column that it keeps to when it moves up and down.
#[derive(Clone, Copy, Debug, PartialEq, Eq, Structural)]
pub struct Cursor {
    pub caret: Pos,
    pub anchor: Option<Pos>,
    pub assoc_index: Option<usize>,
    pub desired_x: usize,
}

/// Whether two ranges meet, as the check of a cursor against its change
/// has it: one of them ends after the other begins.
pub open spec fn spec_intersects(first: (usize, usize), second: (usize, usize)) -> bool {
    first.1 > second.0 || second.1 > first.0
}

/// Whether two ranges meet.
pub fn intersects(first: (usize, usize), second: (usize, usize)) -> (r: bool)
    ensures
        r == spec_intersects(first, second),
{
    first.1 > second.0 || second.1 > first.0
}

/// The visual column of offset `b`: the width of what its line shows
/// before it.
pub open spec fn spec_visual_col(text: Text, b: int, cfg: PrintCfg) -> usize {
    spec_items_width(text.spec_parts(line_start_of(text.bytes(), b), b), cfg.tab_stops)
}

/// The visual column of offset `b`, which lies between two characters.
pub fn visual_col(text: &Text, b: usize, cfg: &PrintCfg) -> (r: usize)
    requires
        text.wf(),
        b <= text.bytes().len(),
    ensures
        r == spec_visual_col(*text, b as int, *cfg),
{
    let ls = text.line_start(b);
    let items = text.parts_in(ls, b);
    items_width(&items, &cfg.tab_stops)
}

/// `a + n`, kept between 0 and `max`.
pub open spec fn clamp_add(a: usize, n: isize, max: usize) -> usize {
    if a + n < 0 {
        0
    } else if a + n > max {
        max
    } else {
        (a + n) as usize
    }
}

/// `a + n`, kept between 0 and `max`.
pub fn clamped_add(a: usize, n: isize, max: usize) -> (r: usize)
    requires
        a <= max,
    ensures
        r == clamp_add(a, n, max),
{
    if n >= 0 {
        let d = n as usize;
        if d > max - a {
            max
        } else {
            a + d
        }
    } else {
        let d = (-(n + 1)) as usize;
        if d >= a {
            0
        } else {
            a - d - 1
        }
    }
}

impl Cursor {
    /// The offset at which the selection begins.
    pub open spec fn start_byte(&self) -> usize {
        match self.anchor {
            Some(a) => if a.byte < self.caret.byte {
                a.byte
            } else {
                self.caret.byte
            },
            None => self.caret.byte,
        }
    }

    /// The offset at which the selection ends.
    pub open spec fn end_byte(&self) -> usize {
        match self.anchor {
            Some(a) => if a.byte > self.caret.byte {
                a.byte
            } else {
                self.caret.byte
            },
            None => self.caret.byte,
        }
    }

    /// The position at which the selection begins.
    pub open spec fn start(&self) -> Pos {
        match self.anchor {
            Some(a) => if a.byte < self.caret.byte {
                a
            } else {
                self.caret
            },
            None => self.caret,
        }
    }

    /// The position at which the selection ends.
    pub open spec fn end(&self) -> Pos {
        match self.anchor {
            Some(a) => if a.byte > self.caret.byte {
                a
            } else {
                self.caret
            },
            None => self.caret,
        }
    }

    /// Whether the caret and the anchor are positions of `bytes`.
    pub open spec fn wf_in(&self, bytes: Seq<u8>) -> bool {
        valid_pos(bytes, self.caret) && (self.anchor is Some ==> valid_pos(
            bytes,
            self.anchor.unwrap(),
        ))
    }

    /// A cursor without a selection at the valid position nearest to
    /// offset `b`.
    pub fn new(b: usize, text: &Text, cfg: &PrintCfg) -> (r: Cursor)
        requires
            text.wf(),
        ensures
            r.caret == point_of(text.bytes(), snap_of(text.bytes(), b as int)),
            r.anchor is None,
            r.assoc_index is None,
            r.desired_x == spec_visual_col(*text, r.caret.byte as int, *cfg),
            r.wf_in(text.bytes()),
    {
        let caret = text.point_near(b);
        Cursor { caret, anchor: None, assoc_index: None, desired_x: visual_col(text, caret.byte, cfg) }
    }

    /// The range of the selection in bytes: from the caret or the anchor,
    /// whichever comes first, to the other. Without an anchor it is empty.
    pub fn range(&self) -> (r: (usize, usize))
        ensures
            r == (self.start_byte(), self.end_byte()),
    {
        match self.anchor {
            Some(a) => {
                if a.byte < self.caret.byte {
                    (a.byte, self.caret.byte)
                } else {
                    (self.caret.byte, a.byte)
                }
            },
            None => (self.caret.byte, self.caret.byte),
        }
    }

    /// The position at which the selection begins.
    pub fn start_pos(&self) -> (r: Pos)
        ensures
            r == self.start(),
    {
        match self.anchor {
            Some(a) => {
                if a.byte < self.caret.byte {
                    a
                } else {
                    self.caret
                }
            },
            None => self.caret,
        }
    }

    /// The position at which the selection ends.
    pub fn end_pos(&self) -> (r: Pos)
        ensures
            r == self.end(),
    {
        match self.anchor {
            Some(a) => {
                if a.byte > self.caret.byte {
                    a
                } else {
                    self.caret
                }
            },
            None => self.caret,
        }
    }

    /// The caret.
    pub fn caret(&self) -> (r: Pos)
        ensures
            r == self.caret,
    {
        self.caret
    }

    /// The anchor, if the cursor has a selection.
    pub fn anchor(&self) -> (r: Option<Pos>)
        ensures
            r == self.anchor,
    {
        self.anchor
    }

    /// Forgets the change of the cursor unless that change is in `moment`
    /// and what it added meets the selection.
    pub fn change_range_check(&mut self, moment: &Moment)
        requires
            forall|i: int|
                0 <= i < moment.changes@.len() ==> (#[trigger] moment.changes@[i]).wf(),
        ensures
            final(self).caret == old(self).caret,
            final(self).anchor == old(self).anchor,
            final(self).desired_x == old(self).desired_x,
            final(self).assoc_index == match old(self).assoc_index {
                Some(i) => if i < moment.changes@.len() && spec_intersects(
                    (
                        moment.changes@[i as int].start,
                        moment.changes@[i as int].spec_added_end() as usize,
                    ),
                    (old(self).start_byte(), old(self).end_byte()),
                ) {
                    Some(i)
                } else {
                    None
                },
                None => None,
            },
    {
        if let Some(i) = self.assoc_index {
            if i < moment.changes.len() {
                let change = &moment.changes[i];
                let added = (change.start, change.added_end());
                if !intersects(added, self.range()) {
                    self.assoc_index = None;
                }
            } else {
                self.assoc_index = None;
            }
        }
    }

    /// Puts the anchor at `pos`.
    pub fn place_anchor(&mut self, pos: Pos)
        ensures
            *final(self) == (Cursor { anchor: Some(pos), ..*old(self) }),
    {
        self.anchor = Some(pos);
    }

    /// Puts the anchor where the caret is, which begins a selection.
    pub fn set_anchor(&mut self)
        ensures
            *final(self) == (Cursor { anchor: Some(old(self).caret), ..*old(self) }),
    {
        self.anchor = Some(self.caret)
    }

    /// Removes the anchor, which ends the selection.
    pub fn unset_anchor(&mut self)
        ensures
            *final(self) == (Cursor { anchor: None, ..*old(self) }),
    {
        self.anchor = None;
    }

    /// The caret and the anchor change places, if there is an anchor.
    pub fn swap_ends(&mut self)
        ensures
            *final(self) == match old(self).anchor {
                Some(a) => Cursor { caret: a, anchor: Some(old(self).caret), ..*old(self) },
                None => *old(self),
            },
    {
        if let Some(a) = self.anchor {
            self.anchor = Some(self.caret);
            self.caret = a;
        }
    }

    /// The byte offset of the caret as an end user counts it, from 1.
    pub fn byte(&self) -> (r: usize)
        requires
            self.caret.byte < usize::MAX,
        ensures
            r == self.caret.byte + 1,
    {
        self.caret.byte + 1
    }

    /// The column of the caret as an end user counts it, from 1.
    pub fn col(&self) -> (r: usize)
        requires
            self.caret.col < usize::MAX,
        ensures
            r == self.caret.col + 1,
    {
        self.caret.col + 1
    }

    /// The row of the caret as an end user counts it, from 1.
    pub fn row(&self) -> (r: usize)
        requires
            self.caret.row < usize::MAX,
        ensures
            r == self.caret.row + 1,
    {
        self.caret.row + 1
    }

    /// The byte offset of the caret, from 0.
    pub fn true_byte(&self) -> (r: usize)
        ensures
            r == self.caret.byte,
    {
        self.caret.byte
    }

    /// The column of the caret, from 0.
    pub fn true_col(&self) -> (r: usize)
        ensures
            r == self.caret.col,
    {
        self.caret.col
    }

    /// The row of the caret, from 0.
    pub fn true_row(&self) -> (r: usize)
        ensures
            r == self.caret.row,
    {
        self.caret.row
    }

    /// Moves the caret by `n` characters, forwards or backwards, across
    /// lines, and no further than the ends of the text. The visual column
    /// that the cursor keeps to becomes that of the caret.
    pub fn move_hor(&mut self, n: isize, text: &Text, cfg: &PrintCfg)
        requires
            text.wf(),
            old(self).wf_in(text.bytes()),
        ensures
            final(self).caret == point_of(
                text.bytes(),
                char_start_from(
                    text.bytes(),
                    0,
                    clamp_add(old(self).caret.ch, n, text.spec_len_chars() as usize) as nat,
                ),
            ),
            final(self).caret.ch == clamp_add(old(self).caret.ch, n, text.spec_len_chars() as usize),
            final(self).anchor == old(self).anchor,
            final(self).assoc_index == old(self).assoc_index,
            final(self).desired_x == spec_visual_col(*text, final(self).caret.byte as int, *cfg),
            final(self).wf_in(text.bytes()),
    {
        let total = text.len_chars();
        proof {
            crate::buffer::lemma_counts_monotone(
                text.bytes(),
                self.caret.byte as int,
                text.bytes().len() as int,
            );
            crate::buffer::lemma_counts_monotone(text.bytes(), 0, text.bytes().len() as int);
        }
        let t = clamped_add(self.caret.ch, n, total);
        let b = text.char_to_byte(t);
        self.caret = text.point_at(b);
        self.desired_x = visual_col(text, b, cfg);
    }

    /// Moves the caret by `n` lines, up or down, and no further than the
    /// first and the last line. In its new line the caret goes to the
    /// last character that begins at or before the visual column that the
    /// cursor keeps to.
    pub fn move_ver(&mut self, n: isize, text: &Text, cfg: &PrintCfg)
        requires
            text.wf(),
            old(self).wf_in(text.bytes()),
        ensures
            final(self).caret == spec_move_ver(*old(self), n, *text, *cfg),
            final(self).anchor == old(self).anchor,
            final(self).assoc_index == old(self).assoc_index,
            final(self).desired_x == old(self).desired_x,
            final(self).wf_in(text.bytes()),
    {
        let lines = text.len_lines();
        proof {
            crate::buffer::lemma_counts_monotone(
                text.bytes(),
                self.caret.byte as int,
                text.bytes().len() as int,
            );
            crate::buffer::lemma_counts_monotone(text.bytes(), 0, text.bytes().len() as int);
        }
        let row = clamped_add(self.caret.row, n, lines - 1);
        let ls = text.line_to_byte(row);
        proof {
            if ls > 0 {
                crate::parts::lemma_scalar_end_is_boundary(text.bytes(), ls - 1);
            } else {
                crate::buffer::lemma_valid_starts_with_start(text.bytes());
            }
            crate::buffer::lemma_counts_monotone(text.bytes(), 0, ls as int);
        }
        let le = text.line_end(ls);
        let items = text.parts_in(ls, le + 1);
        let col = col_at_dist(&items, self.desired_x, cfg);
        let first = text.point_at(ls).ch;
        let b = if col > MAX_LEN {
            text.len_bytes()
        } else {
            text.char_to_byte(first + col)
        };
        self.caret = text.point_at(b);
    }

    /// Moves the caret to the valid position nearest to offset `b`. The
    /// visual column that the cursor keeps to becomes that of the caret.
    pub fn move_to(&mut self, b: usize, text: &Text, cfg: &PrintCfg)
        requires
            text.wf(),
        ensures
            final(self).caret == point_of(text.bytes(), snap_of(text.bytes(), b as int)),
            final(self).anchor == old(self).anchor,
            final(self).assoc_index == old(self).assoc_index,
            final(self).desired_x == spec_visual_col(*text, final(self).caret.byte as int, *cfg),
            valid_pos(text.bytes(), final(self).caret),
    {
        self.caret = text.point_near(b);
        self.desired_x = visual_col(text, self.caret.byte, cfg);
    }

    /// Moves the caret to column `col` of line `line`: to the last line
    /// where there are fewer lines, and to the end of the line where it
    /// has fewer characters.
    pub fn move_to_coords(&mut self, line: usize, col: usize, text: &Text, cfg: &PrintCfg)
        requires
            text.wf(),
        ensures
            final(self).caret == spec_at_coords(line, col, *text),
            final(self).anchor == old(self).anchor,
            final(self).assoc_index == old(self).assoc_index,
            final(self).desired_x == spec_visual_col(*text, final(self).caret.byte as int, *cfg),
            valid_pos(text.bytes(), final(self).caret),
    {
        let lines = text.len_lines();
        proof {
            crate::buffer::lemma_counts_monotone(text.bytes(), 0, text.bytes().len() as int);
        }
        let row = if line < lines {
            line
        } else {
            lines - 1
        };
        let ls = text.line_to_byte(row);
        proof {
            crate::buffer::lemma_counts_monotone(text.bytes(), 0, ls as int);
        }
        let le = text.line_end(ls);
        let first = text.point_at(ls).ch;
        let b = if col > MAX_LEN {
            le
        } else {
            let c = text.char_to_byte(first + col);
            if c < le {
                c
            } else {
                le
            }
        };
        self.caret = text.point_at(b);
        self.desired_x = visual_col(text, b, cfg);
    }
}

/// Where the caret of `c` stands after it moved by `n` lines.
pub open spec fn spec_move_ver(c: Cursor, n: isize, text: Text, cfg: PrintCfg) -> Pos {
    let bytes = text.bytes();
    let row = clamp_add(c.caret.row, n, (text.spec_len_lines() - 1) as usize);
    let ls = row_start_from(bytes, 0, row as nat);
    let le = line_end_of(bytes, ls);
    let col = spec_col_at_dist(text.spec_parts(ls, le + 1), c.desired_x, cfg.tab_stops);
    point_of(
        bytes,
        if col <= MAX_LEN {
            char_start_from(bytes, 0, chars_upto(bytes, ls) + col)
        } else {
            bytes.len() as int
        },
    )
}

/// The position at column `col` of line `line` of a text.
pub open spec fn spec_at_coords(line: usize, col: usize, text: Text) -> Pos {
    let bytes = text.bytes();
    let row = if line < text.spec_len_lines() {
        line as nat
    } else {
        (text.spec_len_lines() - 1) as nat
    };
    let ls = row_start_from(bytes, 0, row);
    let le = line_end_of(bytes, ls);
    let c = char_start_from(bytes, 0, (chars_upto(bytes, ls) + col) as nat);
    point_of(
        bytes,
        if col <= MAX_LEN && c < le {
            c
        } else {
            le
        },
    )
}

/// Whether the selections of `list` are in order and apart: each one
/// begins after the one before it began, and not before that one ended.
pub open spec fn disjoint(list: Seq<Cursor>) -> bool {
    forall|i: int, j: int|
        0 <= i < j < list.len() ==> (#[trigger] list[i]).end_byte() <= (#[trigger] list[j]).start_byte()
            && list[i].start_byte() < list[j].start_byte()
}

/// Whether a cursor lies wholly before the range `s..e` and does not begin
/// where it begins.
pub open spec fn lies_before(c: Cursor, s: usize) -> bool {
    c.end_byte() <= s && c.start_byte() < s
}

/// Whether a cursor lies wholly after the range `s..e` and does not begin
/// where it begins.
pub open spec fn lies_after(c: Cursor, s: usize, e: usize) -> bool {
    c.start_byte() >= e && c.start_byte() > s
}

/// The number of leading cursors of `list` that lie before `s`.
pub open spec fn count_lying_before(list: Seq<Cursor>, s: usize, from: int) -> int
    decreases list.len() - from,
{
    if from < 0 || from >= list.len() || !lies_before(list[from], s) {
        if from < 0 {
            0
        } else if from > list.len() {
            list.len() as int
        } else {
            from
        }
    } else {
        count_lying_before(list, s, from + 1)
    }
}

/// The index of the first cursor of `list` from `from` on that lies after
/// `s..e`, or the number of cursors.
pub open spec fn first_lying_after(list: Seq<Cursor>, s: usize, e: usize, from: int) -> int
    decreases list.len() - from,
{
    if from < 0 || from >= list.len() {
        list.len() as int
    } else if lies_after(list[from], s, e) {
        from
    } else {
        first_lying_after(list, s, e, from + 1)
    }
}

/// The cursor that stands for `c` and the cursors `list[a..b]` that it
/// meets: its selection goes from where the first of them all begins to
/// where the last of them all ends, and its caret is at the end at which
/// the caret of `c` was.
pub open spec fn merged_cursor(list: Seq<Cursor>, a: int, b: int, c: Cursor) -> Cursor {
    if a >= b {
        c
    } else {
        let start = if list[a].start_byte() < c.start_byte() {
            list[a].start()
        } else {
            c.start()
        };
        let end = if list[b - 1].end_byte() > c.end_byte() {
            list[b - 1].end()
        } else {
            c.end()
        };
        if start.byte == end.byte {
            Cursor { caret: end, anchor: None, ..c }
        } else if c.caret.byte == c.end_byte() {
            Cursor { caret: end, anchor: Some(start), ..c }
        } else {
            Cursor { caret: start, anchor: Some(end), ..c }
        }
    }
}

/// The cursor that stands for `c` and the cursors `list[a..b]`.
pub fn merge_with(list: &Vec<Cursor>, a: usize, b: usize, c: Cursor) -> (m: Cursor)
    requires
        a <= b <= list@.len(),
    ensures
        m == merged_cursor(list@, a as int, b as int, c),
        m.assoc_index == c.assoc_index,
        m.desired_x == c.desired_x,
        a < b ==> m.start_byte() == if list@[a as int].start_byte() < c.start_byte() {
            list@[a as int].start_byte()
        } else {
            c.start_byte()
        },
        a < b ==> m.end_byte() == if list@[b - 1].end_byte() > c.end_byte() {
            list@[b - 1].end_byte()
        } else {
            c.end_byte()
        },
{
    if a < b {
        let first = list[a];
        let last = list[b - 1];
        let start = if first.range().0 < c.range().0 {
            first.start_pos()
        } else {
            c.start_pos()
        };
        let end = if last.range().1 > c.range().1 {
            last.end_pos()
        } else {
            c.end_pos()
        };
        if start.byte == end.byte {
            Cursor { caret: end, anchor: None, ..c }
        } else if c.caret.byte == c.range().1 {
            Cursor { caret: end, anchor: Some(start), ..c }
        } else {
            Cursor { caret: start, anchor: Some(end), ..c }
        }
    } else {
        c
    }
}

/// Cursors that are apart stay apart when the cursors `a..b` among them
/// give way to one that spans them and `c`, if those before `a` lie
/// before `c` and those from `b` on lie after it.
pub proof fn lemma_insert_disjoint(list: Seq<Cursor>, a: int, b: int, c: Cursor, m: Cursor)
    requires
        disjoint(list),
        0 <= a <= b <= list.len(),
        forall|i: int| 0 <= i < a ==> lies_before(#[trigger] list[i], c.start_byte()),
        b < list.len() ==> lies_after(list[b], c.start_byte(), c.end_byte()),
        a == b ==> m == c,
        a < b ==> m.start_byte() == if list[a].start_byte() < c.start_byte() {
            list[a].start_byte()
        } else {
            c.start_byte()
        },
        a < b ==> m.end_byte() == if list[b - 1].end_byte() > c.end_byte() {
            list[b - 1].end_byte()
        } else {
            c.end_byte()
        },
    ensures
        disjoint(list.take(a).push(m) + list.skip(b)),
{
    let new = list.take(a).push(m) + list.skip(b);
    let s = c.start_byte();
    let e = c.end_byte();
    assert(s <= e);
    assert forall|i: int, j: int| 0 <= i < j < new.len() implies (#[trigger] new[i]).end_byte() <= (
    #[trigger] new[j]).start_byte() && new[i].start_byte() < new[j].start_byte() by {
        if j < a {
            assert(new[i] == list[i] && new[j] == list[j]);
        } else if j == a {
            assert(new[i] == list[i]);
            assert(lies_before(list[i], s));
            if a < b {
                assert(list[i].end_byte() <= list[a].start_byte());
            }
        } else {
            let jj = j - 1 - a + b;
            assert(new[j] == list[jj]);
            assert(lies_after(list[b], s, e));
            if jj > b {
                assert(list[b].start_byte() < list[jj].start_byte());
            }
            if i < a {
                assert(new[i] == list[i]);
            } else if i == a {
                if a < b {
                    assert(list[b - 1].end_byte() <= list[jj].start_byte());
                }
            } else {
                assert(new[i] == list[i - 1 - a + b]);
            }
        }
    }
}

/// The cursors and the main index after `c` was put in among `list`, as
/// `Cursors::insert_removed` does it.
pub open spec fn inserted(list: Seq<Cursor>, main: usize, was_main: bool, c: Cursor) -> (
    Seq<Cursor>,
    usize,
) {
    let s = c.start_byte();
    let e = c.end_byte();
    let a = count_lying_before(list, s, 0);
    let b = first_lying_after(list, s, e, a);
    (
        list.take(a).push(merged_cursor(list, a, b, c)) + list.skip(b),
        if was_main || list.len() == 0 || a <= main < b {
            a as usize
        } else if main >= b {
            (main + 1 - (b - a)) as usize
        } else {
            main
        },
    )
}

/// The cursors and the main index after the cursors of `cs` were put in
/// among `list`, one after the other, each with the word whether it was
/// the main one.
pub open spec fn inserted_all(list: Seq<Cursor>, main: usize, cs: Seq<(Cursor, bool)>) -> (
    Seq<Cursor>,
    usize,
)
    decreases cs.len(),
{
    if cs.len() == 0 {
        (list, main)
    } else {
        let before = inserted_all(list, main, cs.drop_last());
        inserted(before.0, before.1, cs.last().1, cs.last().0)
    }
}

/// Whether two cursors have the same selection: the same caret and the
/// same anchor.
pub open spec fn same_sel(a: Cursor, b: Cursor) -> bool {
    a.caret == b.caret && a.anchor == b.anchor
}

/// Whether the cursors of two lists have the same selections, one by one.
pub open spec fn same_sels(a: Seq<Cursor>, b: Seq<Cursor>) -> bool {
    a.len() == b.len() && forall|i: int| 0 <= i < a.len() ==> same_sel(#[trigger] a[i], b[i])
}

proof fn lemma_counts_same(l1: Seq<Cursor>, l2: Seq<Cursor>, s: usize, e: usize, from: int)
    requires
        same_sels(l1, l2),
    ensures
        count_lying_before(l1, s, from) == count_lying_before(l2, s, from),
        first_lying_after(l1, s, e, from) == first_lying_after(l2, s, e, from),
    decreases l1.len() - from,
{
    if 0 <= from < l1.len() {
        assert(same_sel(l1[from], l2[from]));
        lemma_counts_same(l1, l2, s, e, from + 1);
    }
}

/// The counts that place a cursor among others lie in order within the
/// list.
pub proof fn lemma_counts_bounds(list: Seq<Cursor>, s: usize, e: usize, from: int)
    requires
        0 <= from <= list.len(),
    ensures
        from <= count_lying_before(list, s, from) <= list.len(),
        from <= first_lying_after(list, s, e, from) <= list.len(),
    decreases list.len() - from,
{
    if from < list.len() {
        lemma_counts_bounds(list, s, e, from + 1);
    }
}

/// Putting a cursor in depends on selections alone: lists with the same
/// selections, given cursors with the same selection, come out with the
/// same selections and the same main index.
pub proof fn lemma_inserted_same(
    l1: Seq<Cursor>,
    l2: Seq<Cursor>,
    main: usize,
    was_main: bool,
    c1: Cursor,
    c2: Cursor,
)
    requires
        same_sels(l1, l2),
        same_sel(c1, c2),
    ensures
        same_sels(inserted(l1, main, was_main, c1).0, inserted(l2, main, was_main, c2).0),
        inserted(l1, main, was_main, c1).1 == inserted(l2, main, was_main, c2).1,
{
    let s = c1.start_byte();
    let e = c1.end_byte();
    lemma_counts_same(l1, l2, s, e, 0);
    lemma_counts_bounds(l1, s, e, 0);
    let a = count_lying_before(l1, s, 0);
    lemma_counts_same(l1, l2, s, e, a);
    lemma_counts_bounds(l1, s, e, a);
    let b = first_lying_after(l1, s, e, a);
    let r1 = inserted(l1, main, was_main, c1).0;
    let r2 = inserted(l2, main, was_main, c2).0;
    if a < b {
        assert(same_sel(l1[a], l2[a]));
        assert(same_sel(l1[b - 1], l2[b - 1]));
    }
    assert forall|i: int| 0 <= i < r1.len() implies same_sel(#[trigger] r1[i], r2[i]) by {
        if i < a {
            assert(same_sel(l1[i], l2[i]));
        } else if i > a {
            assert(same_sel(l1[i - 1 - a + b], l2[i - 1 - a + b]));
        }
    }
}

/// Putting cursors in one after the other depends on selections alone.
pub proof fn lemma_inserted_all_same(
    l1: Seq<Cursor>,
    l2: Seq<Cursor>,
    main: usize,
    cs1: Seq<(Cursor, bool)>,
    cs2: Seq<(Cursor, bool)>,
)
    requires
        same_sels(l1, l2),
        cs1.len() == cs2.len(),
        forall|i: int|
            0 <= i < cs1.len() ==> same_sel((#[trigger] cs1[i]).0, cs2[i].0) && cs1[i].1 == cs2[i].1,
    ensures
        same_sels(inserted_all(l1, main, cs1).0, inserted_all(l2, main, cs2).0),
        inserted_all(l1, main, cs1).1 == inserted_all(l2, main, cs2).1,
    decreases cs1.len(),
{
    if cs1.len() > 0 {
        lemma_inserted_all_same(l1, l2, main, cs1.drop_last(), cs2.drop_last());
        let b1 = inserted_all(l1, main, cs1.drop_last());
        let b2 = inserted_all(l2, main, cs2.drop_last());
        assert(same_sel(cs1[cs1.len() - 1].0, cs2[cs1.len() - 1].0));
        lemma_inserted_same(b1.0, b2.0, b1.1, cs1.last().1, cs1.last().0, cs2.last().0);
    }
}

/// Cursors that are apart and stand in a text are no more than its bytes
/// and one.
pub proof fn lemma_cursor_count(list: Seq<Cursor>, max: int)
    requires
        disjoint(list),
        0 <= max,
        forall|i: int| 0 <= i < list.len() ==> (#[trigger] list[i]).start_byte() <= max,
    ensures
        list.len() <= max + 1,
{
    assert forall|i: int| 0 <= i < list.len() implies (#[trigger] list[i]).start_byte() >= i by {
        lemma_starts_grow(list, i);
    }
    if list.len() > 0 {
        assert(list[list.len() - 1].start_byte() >= list.len() - 1);
    }
}

proof fn lemma_starts_grow(list: Seq<Cursor>, i: int)
    requires
        disjoint(list),
        0 <= i < list.len(),
    ensures
        list[i].start_byte() >= i,
    decreases i,
{
    if i > 0 {
        lemma_starts_grow(list, i - 1);
        assert(list[i - 1].start_byte() < list[i].start_byte());
    }
}

/// The cursors of a text, in the order of their selections, which are
/// apart from each other, and the index of the main one.
#[derive(Clone, Debug)]
pub struct Cursors {
    pub list: Vec<Cursor>,
    pub main: usize,
}

impl Cursors {
    /// Whether the selections are in order and apart, and the main index
    /// names a cursor if there is one.
    pub open spec fn wf(&self) -> bool {
        &&& disjoint(self.list@)
        &&& self.list@.len() > 0 ==> self.main < self.list@.len()
        &&& self.list@.len() == 0 ==> self.main == 0
    }

    /// Whether every cursor stands at positions of `bytes`.
    pub open spec fn wf_in(&self, bytes: Seq<u8>) -> bool {
        self.wf() && forall|i: int| 0 <= i < self.list@.len() ==> (#[trigger] self.list@[i]).wf_in(bytes)
    }

    /// One cursor, at the start of a text.
    pub fn new() -> (r: Self)
        ensures
            r.list@ == seq![
                Cursor {
                    caret: Pos { byte: 0, ch: 0, col: 0, row: 0 },
                    anchor: None,
                    assoc_index: None,
                    desired_x: 0,
                },
            ],
            r.main == 0,
            r.wf(),
    {
        let mut list = Vec::new();
        list.push(
            Cursor {
                caret: Pos { byte: 0, ch: 0, col: 0, row: 0 },
                anchor: None,
                assoc_index: None,
                desired_x: 0,
            },
        );
        Cursors { list, main: 0 }
    }

    /// The number of cursors.
    pub fn len(&self) -> (r: usize)
        ensures
            r == self.list@.len(),
    {
        self.list.len()
    }

    /// Whether there is no cursor.
    pub fn is_empty(&self) -> (r: bool)
        ensures
            r == (self.list@.len() == 0),
    {
        self.list.len() == 0
    }

    /// The index of the main cursor.
    pub fn main_index(&self) -> (r: usize)
        ensures
            r == self.main,
    {
        self.main
    }

    /// The cursor of index `n`, if there is one.
    pub fn get(&self, n: usize) -> (r: Option<Cursor>)
        ensures
            r == if n < self.list@.len() {
                Some(self.list@[n as int])
            } else {
                None
            },
    {
        if n < self.list.len() {
            Some(self.list[n])
        } else {
            None
        }
    }

    /// The main cursor, if there is a cursor.
    pub fn get_main(&self) -> (r: Option<Cursor>)
        ensures
            r == if self.main < self.list@.len() {
                Some(self.list@[self.main as int])
            } else {
                None
            },
    {
        self.get(self.main)
    }

    /// Takes the cursor of index `n` out, and says whether it was the main
    /// one. The main index goes on naming the cursor that it named, or the
    /// one that took the place of the main cursor.
    pub fn remove(&mut self, n: usize) -> (r: Option<(Cursor, bool)>)
        requires
            old(self).wf(),
        ensures
            final(self).wf(),
            n >= old(self).list@.len() ==> r is None && *final(self) == *old(self),
            forall|bytes: Seq<u8>| old(self).wf_in(bytes) ==> #[trigger] final(self).wf_in(bytes),
            n < old(self).list@.len() ==> {
                &&& r == Some((old(self).list@[n as int], n == old(self).main))
                &&& final(self).list@ == old(self).list@.remove(n as int)
                &&& final(self).main == if old(self).main > n || (old(self).main == n && n + 1
                    == old(self).list@.len() && n > 0) {
                    (old(self).main - 1) as usize
                } else {
                    old(self).main
                }
            },
    {
        if n >= self.list.len() {
            return None;
        }
        let was_main = n == self.main;
        let c = self.list.remove(n);
        if self.main > n || (self.main == n && n == self.list.len() && n > 0) {
            self.main = self.main - 1;
        }
        proof {
            let list = old(self).list@;
            let new = self.list@;
            assert forall|i: int, j: int| 0 <= i < j < new.len() implies (#[trigger] new[i]).end_byte()
                <= (#[trigger] new[j]).start_byte() && new[i].start_byte() < new[j].start_byte() by {
                let ii = if i < n { i } else { i + 1 };
                let jj = if j < n { j } else { j + 1 };
                assert(new[i] == list[ii] && new[j] == list[jj]);
            }
            assert forall|bytes: Seq<u8>| old(self).wf_in(bytes) implies #[trigger] self.wf_in(
                bytes,
            ) by {
                assert forall|i: int| 0 <= i < new.len() implies (#[trigger] new[i]).wf_in(bytes) by {
                    let ii = if i < n { i } else { i + 1 };
                    assert(new[i] == list[ii]);
                }
            }
        }
        Some((c, was_main))
    }

    /// Takes all cursors out, in order, each with the word whether it was
    /// the main one.
    pub fn drain(&mut self) -> (r: Vec<(Cursor, bool)>)
        ensures
            final(self).list@.len() == 0,
            final(self).main == 0,
            final(self).wf(),
            r@.len() == old(self).list@.len(),
            forall|i: int|
                0 <= i < r@.len() ==> #[trigger] r@[i] == (old(self).list@[i], i == old(self).main),
    {
        let mut out: Vec<(Cursor, bool)> = Vec::new();
        let mut i: usize = 0;
        while i < self.list.len()
            invariant
                i <= self.list@.len(),
                *self == *old(self),
                out@.len() == i,
                forall|k: int| 0 <= k < i ==> #[trigger] out@[k] == (self.list@[k], k == self.main),
            decreases self.list.len() - i,
        {
            out.push((self.list[i], i == self.main));
            i += 1;
        }
        self.list = Vec::new();
        self.main = 0;
        out
    }

    /// Puts a cursor in, at its place in the order, as one with the
    /// cursors whose selections it meets. If the cursor was the main one,
    /// or one that it meets is, the new cursor is the main one.
    pub fn insert_removed(&mut self, was_main: bool, cursor: Cursor)
        requires
            old(self).wf(),
        ensures
            final(self).wf(),
            (final(self).list@, final(self).main) == inserted(
                old(self).list@,
                old(self).main,
                was_main,
                cursor,
            ),
            forall|bytes: Seq<u8>|
                old(self).wf_in(bytes) && cursor.wf_in(bytes) ==> #[trigger] final(self).wf_in(bytes),
            ({
                let list = old(self).list@;
                let s = cursor.start_byte();
                let e = cursor.end_byte();
                let a = count_lying_before(list, s, 0);
                let b = first_lying_after(list, s, e, a);
                &&& 0 <= a <= b <= list.len()
                &&& final(self).list@ == list.take(a).push(merged_cursor(list, a, b, cursor))
                    + list.skip(b)
                &&& final(self).main == if was_main || list.len() == 0 || a <= old(self).main < b {
                    a
                } else if old(self).main >= b {
                    old(self).main + 1 - (b - a)
                } else {
                    old(self).main as int
                }
            }),
    {
        let ghost list = self.list@;
        let s = cursor.range().0;
        let e = cursor.range().1;
        let n = self.list.len();
        let mut a: usize = 0;
        while a < n && self.list[a].range().1 <= s && self.list[a].range().0 < s
            invariant
                a <= n == list.len(),
                self.list@ == list,
                count_lying_before(list, s, 0) == count_lying_before(list, s, a as int),
                forall|i: int| 0 <= i < a ==> lies_before(#[trigger] list[i], s),
            decreases n - a,
        {
            a += 1;
        }
        let mut b: usize = a;
        while b < n && !(self.list[b].range().0 >= e && self.list[b].range().0 > s)
            invariant
                a <= b <= n == list.len(),
                self.list@ == list,
                first_lying_after(list, s, e, a as int) == first_lying_after(list, s, e, b as int),
            decreases n - b,
        {
            b += 1;
        }
        let m = merge_with(&self.list, a, b, cursor);
        let old_main = self.main;
        let mut k: usize = b;
        while k > a
            invariant
                a <= k <= b <= n == list.len(),
                self.list@ == list.take(k as int) + list.skip(b as int),
            decreases k,
        {
            k -= 1;
            self.list.remove(k);
            proof {
                assert(self.list@ =~= list.take(k as int) + list.skip(b as int));
            }
        }
        self.list.insert(a, m);
        proof {
            assert(self.list@ =~= list.take(a as int).push(m) + list.skip(b as int));
        }
        self.main = if was_main || n == 0 || (a <= old_main && old_main < b) {
            a
        } else if old_main >= b {
            old_main + 1 - (b - a)
        } else {
            old_main
        };
        proof {
            if b < n {
                assert(lies_after(list[b as int], s, e));
            }
            lemma_insert_disjoint(list, a as int, b as int, cursor, m);
            let new = self.list@;
            assert forall|bytes: Seq<u8>|
                old(self).wf_in(bytes) && cursor.wf_in(bytes) implies #[trigger] self.wf_in(bytes) by {
                assert forall|i: int| 0 <= i < new.len() implies (#[trigger] new[i]).wf_in(bytes) by {
                    if i < a {
                        assert(new[i] == list[i]);
                    } else if i > a {
                        assert(new[i] == list[i - 1 - a + b]);
                    } else if a < b {
                        assert(list[a as int].wf_in(bytes));
                        assert(list[b - 1].wf_in(bytes));
                    }
                }
            }
        }
    }

    /// Takes out every cursor but the main one.
    pub fn remove_extras(&mut self)
        requires
            old(self).wf(),
        ensures
            final(self).wf(),
            final(self).main == 0,
            final(self).list@ == if old(self).list@.len() > 0 {
                seq![old(self).list@[old(self).main as int]]
            } else {
                old(self).list@
            },
    {
        if self.list.len() > 0 {
            let c = self.list[self.main];
            let mut list = Vec::new();
            list.push(c);
            self.list = list;
            self.main = 0;
        }
    }

    /// Makes the next cursor the main one, and the first after the last.
    pub fn rotate_main_fwd(&mut self)
        requires
            old(self).wf(),
        ensures
            final(self).wf(),
            final(self).list == old(self).list,
            final(self).main == if old(self).main + 1 < old(self).list@.len() {
                (old(self).main + 1) as usize
            } else {
                0
            },
    {
        let n = self.list.len();
        if self.main < n && self.main + 1 < n {
            self.main = self.main + 1;
        } else {
            self.main = 0;
        }
    }

    /// Makes the cursor before the main one the main one, and the last
    /// before the first.
    pub fn rotate_main_rev(&mut self)
        requires
            old(self).wf(),
        ensures
            final(self).wf(),
            final(self).list == old(self).list,
            final(self).main == if old(self).main > 0 {
                (old(self).main - 1) as usize
            } else if old(self).list@.len() > 0 {
                (old(self).list@.len() - 1) as usize
            } else {
                0
            },
    {
        if self.main > 0 {
            self.main = self.main - 1;
        } else if self.list.len() > 0 {
            self.main = self.list.len() - 1;
        }
    }
}

/// The byte offset of the main cursor as an end user counts it, from 1;
/// it is 1 where there is no cursor.
pub fn main_byte(cursors: &Cursors) -> (r: usize)
    requires
        cursors.main < cursors.list@.len() ==> cursors.list@[cursors.main as int].caret.byte
            < usize::MAX,
    ensures
        r == if cursors.main < cursors.list@.len() {
            cursors.list@[cursors.main as int].caret.byte + 1
        } else {
            1
        },
{
    match cursors.get_main() {
        Some(c) => c.caret.byte + 1,
        None => 1,
    }
}

/// The character index of the main cursor as an end user counts it, from
/// 1; it is 1 where there is no cursor.
pub fn main_char(cursors: &Cursors) -> (r: usize)
    requires
        cursors.main < cursors.list@.len() ==> cursors.list@[cursors.main as int].caret.ch
            < usize::MAX,
    ensures
        r == if cursors.main < cursors.list@.len() {
            cursors.list@[cursors.main as int].caret.ch + 1
        } else {
            1
        },
{
    match cursors.get_main() {
        Some(c) => c.caret.ch + 1,
        None => 1,
    }
}

/// The column of the main cursor as an end user counts it, from 1; it is
/// 1 where there is no cursor.
pub fn main_col(cursors: &Cursors) -> (r: usize)
    requires
        cursors.main < cursors.list@.len() ==> cursors.list@[cursors.main as int].caret.col
            < usize::MAX,
    ensures
        r == if cursors.main < cursors.list@.len() {
            cursors.list@[cursors.main as int].caret.col + 1
        } else {
            1
        },
{
    match cursors.get_main() {
        Some(c) => c.caret.col + 1,
        None => 1,
    }
}

/// The line of the main cursor as an end user counts it, from 1; it is 1
/// where there is no cursor.
pub fn main_line(cursors: &Cursors) -> (r: usize)
    requires
        cursors.main < cursors.list@.len() ==> cursors.list@[cursors.main as int].caret.row
            < usize::MAX,
    ensures
        r == if cursors.main < cursors.list@.len() {
            cursors.list@[cursors.main as int].caret.row + 1
        } else {
            1
        },
{
    match cursors.get_main() {
        Some(c) => c.caret.row + 1,
        None => 1,
    }
}

/// The number of cursors.
pub fn selections(cursors: &Cursors) -> (r: usize)
    ensures
        r == cursors.list@.len(),
{
    cursors.len()
}

/// The index of the item of `w` from `from` on before which the visual
/// line `t` begins, counted from the visual lines that begin from `from`
/// on; or the number of items where there are not so many.
pub open spec fn wrap_index(w: Seq<WrapItem>, t: nat, from: int) -> int
    decreases w.len() - from,
{
    if from < 0 || from >= w.len() {
        w.len() as int
    } else if w[from].nl is Some {
        if t == 0 {
            from
        } else {
            wrap_index(w, (t - 1) as nat, from + 1)
        }
    } else {
        wrap_index(w, t, from + 1)
    }
}

/// The byte offset of the character of a visual line that stands at the
/// visual distance `dist`: among the items of `w` from `i` up to the next
/// one that begins a visual line, the last character that begins at or
/// before that distance, the first of them standing at column `x`; or
/// `best` where there is none.
pub open spec fn row_pick(
    w: Seq<WrapItem>,
    i: int,
    x: usize,
    dist: usize,
    best: usize,
    first: bool,
    tabs: TabStops,
) -> usize
    decreases w.len() - i,
{
    if i < 0 || i >= w.len() || (!first && w[i].nl is Some) {
        best
    } else {
        match w[i].item.part {
            Part::Char(_) => if x <= dist {
                row_pick(
                    w,
                    i + 1,
                    sat_add(x, part_len(w[i].item.part, x, tabs)),
                    dist,
                    w[i].item.byte,
                    false,
                    tabs,
                )
            } else {
                best
            },
            _ => row_pick(w, i + 1, x, dist, best, false, tabs),
        }
    }
}

/// The byte offset at which the caret stands after it moved by `n`
/// visual lines in an area `width` columns wide.
pub open spec fn spec_wrapped_target(c: Cursor, n: isize, text: Text, cfg: PrintCfg, width: usize) -> usize {
    let w = wrapped_of(text.spec_parts(0, text.bytes().len() as int + 1), cfg, width);
    let starts = starts_of(w);
    let rows = run_upto(starts, c.caret.ch, 0);
    if starts.len() == 0 {
        c.caret.byte
    } else {
        let row = if rows == 0 {
            0usize
        } else {
            (rows - 1) as usize
        };
        let t = clamp_add(row, n, (starts.len() - 1) as usize);
        let i = wrap_index(w, t as nat, 0);
        if i < w.len() {
            row_pick(
                w,
                i,
                match w[i].nl {
                    Some(indent) => indent,
                    None => 0,
                },
                c.desired_x,
                w[i].item.byte,
                true,
                cfg.tab_stops,
            )
        } else {
            c.caret.byte
        }
    }
}

impl Cursor {
    /// Moves the caret by `n` visual lines, up or down, in an area
    /// `width` columns wide, and no further than the first and the last
    /// visual line. In its new visual line the caret goes to the last
    /// character that begins at or before the visual column that the
    /// cursor keeps to.
    pub fn move_ver_wrapped(&mut self, n: isize, text: &Text, cfg: &PrintCfg, width: usize)
        requires
            text.wf(),
            old(self).wf_in(text.bytes()),
        ensures
            final(self).caret == point_of(
                text.bytes(),
                snap_of(text.bytes(), spec_wrapped_target(*old(self), n, *text, *cfg, width) as int),
            ),
            final(self).anchor == old(self).anchor,
            final(self).assoc_index == old(self).assoc_index,
            final(self).desired_x == old(self).desired_x,
            final(self).wf_in(text.bytes()),
    {
        let items = text.parts();
        let w = wrapped(&items, cfg, width);
        let starts = wrap_starts(&w);
        if starts.len() == 0 {
            self.caret = text.point_near(self.caret.byte);
            return ;
        }
        let mut rows: usize = 0;
        while rows < starts.len() && starts[rows] <= self.caret.ch
            invariant
                rows <= starts@.len(),
                rows + run_upto(starts@, self.caret.ch, rows as int) == run_upto(
                    starts@,
                    self.caret.ch,
                    0,
                ),
            decreases starts.len() - rows,
        {
            rows += 1;
        }
        let row = if rows == 0 {
            0
        } else {
            rows - 1
        };
        let t = clamped_add(row, n, starts.len() - 1);
        let mut i: usize = 0;
        let mut left = t;
        let mut found = false;
        while i < w.len() && !found
            invariant
                i <= w@.len(),
                found ==> i < w@.len() && wrap_index(w@, t as nat, 0) == i,
                !found ==> wrap_index(w@, t as nat, 0) == wrap_index(w@, left as nat, i as int),
            decreases w.len() - i + if found { 0int } else { 1int },
        {
            if w[i].nl.is_some() {
                if left == 0 {
                    found = true;
                } else {
                    left -= 1;
                    i += 1;
                }
            } else {
                i += 1;
            }
        }
        if !found {
            self.caret = text.point_near(self.caret.byte);
            return ;
        }
        let x0 = match w[i].nl {
            Some(indent) => indent,
            None => 0,
        };
        let mut best = w[i].item.byte;
        let mut x = x0;
        let mut k: usize = i;
        let mut first = true;
        let mut done = false;
        let ghost target = row_pick(w@, i as int, x0, self.desired_x, best, true, cfg.tab_stops);
        while k < w.len() && !done
            invariant
                i <= k <= w@.len(),
                done ==> best == target,
                !done ==> row_pick(w@, k as int, x, self.desired_x, best, first, cfg.tab_stops)
                    == target,
            decreases w.len() - k + if done { 0int } else { 1int },
        {
            if !first && w[k].nl.is_some() {
                done = true;
            } else {
                match w[k].item.part {
                    Part::Char(c) => {
                        if x <= self.desired_x {
                            best = w[k].item.byte;
                            x = x.saturating_add(len_from(c, x, &cfg.tab_stops));
                            first = false;
                            k += 1;
                        } else {
                            done = true;
                        }
                    },
                    _ => {
                        first = false;
                        k += 1;
                    },
                }
            }
        }
        self.caret = text.point_near(best);
    }
}

} // verus!
