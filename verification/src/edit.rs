//! The two restricted views of a cursor: the editor, which changes the
//! text under a cursor and cannot move its selection, and the mover, which
//! moves the selection and cannot change the text.

use crate::buffer::{lemma_counts_prefix, lemma_splice_boundary, spliced, MAX_LEN};
use crate::cfg::PrintCfg;
use crate::cursor::{spec_visual_col, visual_col, Cursor};
use crate::history::{Change, History};
use crate::position::Pos;
use crate::text::{point_of, snap_of, Text};
use vstd::prelude::*;
use vstd::utf8::encode_utf8;

verus! {

/// What the edits of a batch have added so far: bytes to the text and
/// changes to the moment. The cursors that come later shift by it.
#[derive(Clone, Copy, Debug, PartialEq, Eq, Structural)]
pub struct Diff {
    pub bytes: isize,
    pub changes: isize,
}

impl Default for Diff {
    fn default() -> (r: Self)
        ensures
            r == (Diff { bytes: 0, changes: 0 }),
    {
        Diff { bytes: 0, changes: 0 }
    }
}

/// The offset `b` moved by `d` bytes, and not before the start.
pub open spec fn moved_by(b: usize, d: isize) -> usize {
    if b + d < 0 {
        0
    } else if b + d > usize::MAX {
        usize::MAX
    } else {
        (b + d) as usize
    }
}

/// The offset `b` moved by `d` bytes, and not before the start.
pub fn move_by(b: usize, d: isize) -> (r: usize)
    ensures
        r == moved_by(b, d),
{
    crate::cursor::clamped_add(b, d, usize::MAX)
}

/// The position of `bytes` nearest to where `p` goes when it moves by `d`
/// bytes.
pub open spec fn shifted_pos(p: Pos, d: isize, bytes: Seq<u8>) -> Pos {
    point_of(bytes, snap_of(bytes, moved_by(p.byte, d) as int))
}

impl Diff {
    /// Whether nothing was added and nothing taken.
    pub fn no_change(&self) -> (r: bool)
        ensures
            r == (self.bytes == 0 && self.changes == 0),
    {
        self.bytes == 0 && self.changes == 0
    }

    /// The cursor `c` after the edits before it: its caret and its anchor
    /// moved by the bytes that were added.
    pub open spec fn spec_shifted(self, c: Cursor, bytes: Seq<u8>) -> Cursor {
        Cursor {
            caret: shifted_pos(c.caret, self.bytes, bytes),
            anchor: match c.anchor {
                Some(a) => Some(shifted_pos(a, self.bytes, bytes)),
                None => None,
            },
            ..c
        }
    }

    /// Shifts a cursor by the edits before it: its caret and its anchor
    /// move by the bytes that were added, to the nearest positions of the
    /// text.
    pub fn shift_cursor(&self, cursor: &mut Cursor, text: &Text)
        requires
            text.wf(),
        ensures
            *final(cursor) == self.spec_shifted(*old(cursor), text.bytes()),
            final(cursor).wf_in(text.bytes()),
    {
        cursor.caret = text.point_near(move_by(cursor.caret.byte, self.bytes));
        if let Some(a) = cursor.anchor {
            cursor.anchor = Some(text.point_near(move_by(a.byte, self.bytes)));
        }
    }
}

/// A cursor that can change the text under it and cannot move its
/// selection.
#[derive(Clone, Copy, Debug)]
pub struct Editor {
    pub cursor: Cursor,
}

/// Whether an edit that replaces `taken` bytes by `added` bytes keeps the
/// text within its limit and the shifts of the batch within theirs.
pub open spec fn edit_fits(len: nat, taken: int, added: nat, diff: Diff) -> bool {
    &&& len - taken + added <= MAX_LEN
    &&& -(MAX_LEN as int) <= diff.bytes + added - taken <= MAX_LEN
    &&& diff.changes < isize::MAX
}

impl Editor {
    /// The editor of a cursor.
    pub fn new(cursor: Cursor) -> (r: Self)
        ensures
            r.cursor == cursor,
    {
        Editor { cursor }
    }

    /// The cursor, given back.
    pub fn finish(self) -> (r: Cursor)
        ensures
            r == self.cursor,
    {
        self.cursor
    }

    /// Inserts `edit` at the caret. The caret goes to the end of what was
    /// inserted; an anchor ahead of the caret moves along with the text,
    /// any other anchor stays. The change is recorded in the history, and
    /// `diff` grows by what it added.
    pub fn insert(
        &mut self,
        edit: &str,
        text: &mut Text,
        history: &mut History,
        diff: &mut Diff,
        cfg: &PrintCfg,
    )
        requires
            old(text).wf(),
            old(history).tracks(old(text).bytes()),
            old(self).cursor.wf_in(old(text).bytes()),
            edit_fits(old(text).bytes().len(), 0, encode_utf8(edit@).len(), *old(diff)),
        ensures
            final(text).bytes() == spliced(
                old(text).bytes(),
                old(self).cursor.caret.byte as int,
                old(self).cursor.caret.byte as int,
                encode_utf8(edit@),
            ),
            final(text).tags@ == crate::tags::transformed(
                old(text).tags@,
                old(self).cursor.caret.byte as int,
                old(self).cursor.caret.byte as int,
                old(self).cursor.caret.byte + encode_utf8(edit@).len(),
            ),
            final(text).wf(),
            final(text).marker == old(text).marker,
            final(text).ghosts == old(text).ghosts,
            final(history).tracks(final(text).bytes()),
            final(self).cursor.caret == point_of(
                final(text).bytes(),
                old(self).cursor.caret.byte + encode_utf8(edit@).len(),
            ),
            final(self).cursor.anchor == match old(self).cursor.anchor {
                Some(a) => if a.byte > old(self).cursor.caret.byte {
                    Some(point_of(final(text).bytes(), a.byte + encode_utf8(edit@).len()))
                } else {
                    Some(a)
                },
                None => None,
            },
            final(self).cursor.assoc_index is Some,
            final(self).cursor.desired_x == spec_visual_col(
                *final(text),
                final(self).cursor.caret.byte as int,
                *cfg,
            ),
            final(self).cursor.wf_in(final(text).bytes()),
            final(diff).bytes == old(diff).bytes + encode_utf8(edit@).len(),
            old(diff).changes <= final(diff).changes <= old(diff).changes + 1,
    {
        let at = self.cursor.caret.byte;
        let ghost bytes = text.bytes();
        let change = Change::new(edit, at, at, text);
        let added = change.added.len();
        let r = history.add_change(text, change, self.cursor.assoc_index);
        proof {
            let new = text.bytes();
            lemma_splice_boundary(bytes, at as int, at as int, encode_utf8(edit@), at as int);
            if let Some(a) = self.cursor.anchor {
                lemma_splice_boundary(
                    bytes,
                    at as int,
                    at as int,
                    encode_utf8(edit@),
                    a.byte as int,
                );
                if a.byte <= at {
                    assert forall|k: int| 0 <= k < a.byte implies bytes[k] == new[k] by {}
                    lemma_counts_prefix(bytes, new, a.byte as int);
                }
            }
        }
        self.cursor.assoc_index = Some(r.0);
        diff.bytes = diff.bytes + added as isize;
        diff.changes = diff.changes + r.1;
        if let Some(a) = self.cursor.anchor {
            if a.byte > at {
                self.cursor.anchor = Some(text.point_at(a.byte + added));
            }
        }
        self.cursor.caret = text.point_at(at + added);
        self.cursor.desired_x = visual_col(text, at + added, cfg);
    }

    /// Replaces the selection by `edit`. The caret goes to the end of
    /// what came in its place; if the anchor was ahead of the caret it
    /// goes to the start of it, and otherwise there is no anchor any more.
    /// The change is recorded in the history, and `diff` grows by what it
    /// added.
    pub fn replace(
        &mut self,
        edit: &str,
        text: &mut Text,
        history: &mut History,
        diff: &mut Diff,
        cfg: &PrintCfg,
    )
        requires
            old(text).wf(),
            old(history).tracks(old(text).bytes()),
            old(self).cursor.wf_in(old(text).bytes()),
            edit_fits(
                old(text).bytes().len(),
                old(self).cursor.end_byte() - old(self).cursor.start_byte(),
                encode_utf8(edit@).len(),
                *old(diff),
            ),
        ensures
            final(text).bytes() == spliced(
                old(text).bytes(),
                old(self).cursor.start_byte() as int,
                old(self).cursor.end_byte() as int,
                encode_utf8(edit@),
            ),
            final(text).tags@ == crate::tags::transformed(
                old(text).tags@,
                old(self).cursor.start_byte() as int,
                old(self).cursor.end_byte() as int,
                old(self).cursor.start_byte() + encode_utf8(edit@).len(),
            ),
            final(text).wf(),
            final(text).marker == old(text).marker,
            final(text).ghosts == old(text).ghosts,
            final(history).tracks(final(text).bytes()),
            final(self).cursor.caret == point_of(
                final(text).bytes(),
                old(self).cursor.start_byte() + encode_utf8(edit@).len(),
            ),
            final(self).cursor.anchor == match old(self).cursor.anchor {
                Some(a) => if a.byte > old(self).cursor.caret.byte {
                    Some(point_of(final(text).bytes(), old(self).cursor.start_byte() as int))
                } else {
                    None
                },
                None => None,
            },
            final(self).cursor.assoc_index is Some,
            final(self).cursor.desired_x == spec_visual_col(
                *final(text),
                final(self).cursor.caret.byte as int,
                *cfg,
            ),
            final(self).cursor.wf_in(final(text).bytes()),
            final(diff).bytes == old(diff).bytes + encode_utf8(edit@).len() - (old(self).cursor.end_byte() - old(self).cursor.start_byte()),
            old(diff).changes <= final(diff).changes <= old(diff).changes + 1,
    {
        let (start, end) = self.cursor.range();
        let ghost bytes = text.bytes();
        let change = Change::new(edit, start, end, text);
        let added = change.added.len();
        let r = history.add_change(text, change, self.cursor.assoc_index);
        proof {
            lemma_splice_boundary(bytes, start as int, end as int, encode_utf8(edit@), start as int);
            lemma_splice_boundary(bytes, start as int, end as int, encode_utf8(edit@), end as int);
        }
        self.cursor.assoc_index = Some(r.0);
        diff.bytes = diff.bytes + added as isize - (end - start) as isize;
        diff.changes = diff.changes + r.1;
        let ahead = match self.cursor.anchor {
            Some(a) => a.byte > self.cursor.caret.byte,
            None => false,
        };
        self.cursor.anchor = if ahead {
            Some(text.point_at(start))
        } else {
            None
        };
        self.cursor.caret = text.point_at(start + added);
        self.cursor.desired_x = visual_col(text, start + added, cfg);
    }
}

/// A cursor that can move its selection and cannot change the text.
#[derive(Clone, Copy, Debug)]
pub struct Mover {
    pub cursor: Cursor,
}

impl Mover {
    /// The mover of a cursor.
    pub fn new(cursor: Cursor) -> (r: Self)
        ensures
            r.cursor == cursor,
    {
        Mover { cursor }
    }

    /// The cursor, given back.
    pub fn finish(self) -> (r: Cursor)
        ensures
            r == self.cursor,
    {
        self.cursor
    }

    /// Moves the caret by `n` characters. See `Cursor::move_hor`.
    pub fn move_hor(&mut self, n: isize, text: &Text, cfg: &PrintCfg)
        requires
            text.wf(),
            old(self).cursor.wf_in(text.bytes()),
        ensures
            final(self).cursor.caret.ch == crate::cursor::clamp_add(
                old(self).cursor.caret.ch,
                n,
                text.spec_len_chars() as usize,
            ),
            final(self).cursor.anchor == old(self).cursor.anchor,
            final(self).cursor.assoc_index == old(self).cursor.assoc_index,
            final(self).cursor.desired_x == spec_visual_col(
                *text,
                final(self).cursor.caret.byte as int,
                *cfg,
            ),
            final(self).cursor.wf_in(text.bytes()),
    {
        self.cursor.move_hor(n, text, cfg);
    }

    /// Moves the caret by `n` lines. See `Cursor::move_ver`.
    pub fn move_ver(&mut self, n: isize, text: &Text, cfg: &PrintCfg)
        requires
            text.wf(),
            old(self).cursor.wf_in(text.bytes()),
        ensures
            final(self).cursor.caret == crate::cursor::spec_move_ver(
                old(self).cursor,
                n,
                *text,
                *cfg,
            ),
            final(self).cursor.anchor == old(self).cursor.anchor,
            final(self).cursor.assoc_index == old(self).cursor.assoc_index,
            final(self).cursor.desired_x == old(self).cursor.desired_x,
            final(self).cursor.wf_in(text.bytes()),
    {
        self.cursor.move_ver(n, text, cfg);
    }

    /// Moves the caret to the valid position nearest to offset `b`.
    pub fn move_to(&mut self, b: usize, text: &Text, cfg: &PrintCfg)
        requires
            text.wf(),
            old(self).cursor.wf_in(text.bytes()),
        ensures
            final(self).cursor.caret == point_of(text.bytes(), snap_of(text.bytes(), b as int)),
            final(self).cursor.anchor == old(self).cursor.anchor,
            final(self).cursor.assoc_index == old(self).cursor.assoc_index,
            final(self).cursor.wf_in(text.bytes()),
    {
        self.cursor.move_to(b, text, cfg);
    }

    /// Moves the caret to column `col` of line `line`.
    pub fn move_to_coords(&mut self, line: usize, col: usize, text: &Text, cfg: &PrintCfg)
        requires
            text.wf(),
            old(self).cursor.wf_in(text.bytes()),
        ensures
            final(self).cursor.caret == crate::cursor::spec_at_coords(line, col, *text),
            final(self).cursor.anchor == old(self).cursor.anchor,
            final(self).cursor.assoc_index == old(self).cursor.assoc_index,
            final(self).cursor.wf_in(text.bytes()),
    {
        self.cursor.move_to_coords(line, col, text, cfg);
    }

    /// Puts the anchor where the caret is.
    pub fn set_anchor(&mut self)
        ensures
            final(self).cursor == (Cursor {
                anchor: Some(old(self).cursor.caret),
                ..old(self).cursor
            }),
    {
        self.cursor.set_anchor();
    }

    /// Removes the anchor and returns it.
    pub fn unset_anchor(&mut self) -> (r: Option<Pos>)
        ensures
            r == old(self).cursor.anchor,
            final(self).cursor == (Cursor { anchor: None, ..old(self).cursor }),
    {
        let a = self.cursor.anchor;
        self.cursor.unset_anchor();
        a
    }

    /// The caret and the anchor change places.
    pub fn swap_ends(&mut self)
        ensures
            final(self).cursor == match old(self).cursor.anchor {
                Some(a) => Cursor {
                    caret: a,
                    anchor: Some(old(self).cursor.caret),
                    ..old(self).cursor
                },
                None => old(self).cursor,
            },
    {
        self.cursor.swap_ends();
    }

    /// Puts the caret at the start of the selection.
    pub fn set_caret_on_start(&mut self)
        ensures
            final(self).cursor == match old(self).cursor.anchor {
                Some(a) => if old(self).cursor.caret.byte > a.byte {
                    Cursor { caret: a, anchor: Some(old(self).cursor.caret), ..old(self).cursor }
                } else {
                    old(self).cursor
                },
                None => old(self).cursor,
            },
    {
        if let Some(a) = self.cursor.anchor {
            if self.cursor.caret.byte > a.byte {
                self.cursor.swap_ends();
            }
        }
    }

    /// Puts the caret at the end of the selection.
    pub fn set_caret_on_end(&mut self)
        ensures
            final(self).cursor == match old(self).cursor.anchor {
                Some(a) => if a.byte > old(self).cursor.caret.byte {
                    Cursor { caret: a, anchor: Some(old(self).cursor.caret), ..old(self).cursor }
                } else {
                    old(self).cursor
                },
                None => old(self).cursor,
            },
    {
        if let Some(a) = self.cursor.anchor {
            if a.byte > self.cursor.caret.byte {
                self.cursor.swap_ends();
            }
        }
    }

    /// The anchor.
    pub fn anchor(&self) -> (r: Option<Pos>)
        ensures
            r == self.cursor.anchor,
    {
        self.cursor.anchor
    }

    /// The caret.
    pub fn caret(&self) -> (r: Pos)
        ensures
            r == self.cursor.caret,
    {
        self.cursor.caret
    }

    /// The range of the selection, in bytes.
    pub fn byte_range(&self) -> (r: (usize, usize))
        ensures
            r == (self.cursor.start_byte(), self.cursor.end_byte()),
    {
        self.cursor.range()
    }
}

} // verus!
