//! Short ways to the cursors of a file, and to the text around a cursor.

use crate::buffer::{
    buf_as_slices, chars_upto, is_start, lemma_boundary_is_char_boundary, lemma_counts_monotone,
    newlines_upto, str_from_utf8,
};
use crate::cfg::{PrintCfg, WordChars};
use crate::cursor::{Cursor, Cursors};
use crate::edit::Mover;
use crate::file::{with_cursors, File};
use crate::history::History;
use crate::keys::chars_of;
use crate::parts::Item;
use crate::position::Pos;
use crate::text::{
    char_of, char_start_from, line_start_of, point_of, row_start_from, snap_of, Text,
};
use vstd::prelude::*;
use vstd::utf8::{encode_utf8, valid_utf8_split};

verus! {

impl Text {
    /// The position at the end of the text.
    pub fn len_point(&self) -> (r: Pos)
        requires
            self.wf(),
        ensures
            r == point_of(self.bytes(), self.bytes().len() as int),
    {
        self.point_at(self.len_bytes())
    }

    /// The position of the last character, if there is one.
    pub fn last_point(&self) -> (r: Option<Pos>)
        requires
            self.wf(),
        ensures
            r == if self.bytes().len() == 0 {
                None
            } else {
                Some(point_of(self.bytes(), snap_of(self.bytes(), self.bytes().len() - 1)))
            },
    {
        let len = self.len_bytes();
        if len == 0 {
            None
        } else {
            Some(self.point_near(len - 1))
        }
    }

    /// The bytes of the text as the two pieces in which the buffer holds
    /// them: those before its gap, and those after it.
    pub fn as_slices(&self) -> (r: (&[u8], &[u8]))
        ensures
            r.0@ + r.1@ == self.bytes(),
    {
        buf_as_slices(&self.buf)
    }

    /// The characters of the text from the character of index `c` on.
    pub fn chars_at(&self, c: usize) -> (r: Vec<char>)
        requires
            self.wf(),
        ensures
            encode_utf8(r@) == self.bytes().subrange(
                char_start_from(self.bytes(), 0, c as nat),
                self.bytes().len() as int,
            ),
    {
        let b = self.char_to_byte(c);
        let len = self.len_bytes();
        let tail = self.bytes_in(b, len);
        proof {
            if b < len {
                lemma_boundary_is_char_boundary(self.bytes(), b as int);
                valid_utf8_split(self.bytes(), b as int);
            } else {
                assert(tail@ =~= Seq::<u8>::empty());
            }
        }
        match str_from_utf8(tail.as_slice()) {
            Some(s) => chars_of(s),
            None => Vec::new(),
        }
    }

    /// The parts of the text before the byte offset `at`, the last one
    /// first.
    pub fn rev_parts(&self, at: usize) -> (r: Vec<Item>)
        requires
            self.wf(),
        ensures
            r@ == self.spec_parts(0, at as int).reverse(),
    {
        proof {
            crate::buffer::lemma_valid_starts_with_start(self.bytes());
        }
        let items = self.parts_in(0, at);
        let mut out: Vec<Item> = Vec::new();
        let mut i: usize = items.len();
        while i > 0
            invariant
                i <= items@.len(),
                out@ == items@.subrange(i as int, items@.len() as int).reverse(),
            decreases i,
        {
            i -= 1;
            out.push(items[i]);
            assert(out@ =~= items@.subrange(i as int, items@.len() as int).reverse());
        }
        assert(items@.subrange(0, items@.len() as int) =~= items@);
        out
    }

    /// The position at which the line of offset `b` begins.
    pub fn visual_line_start(&self, b: usize) -> (r: Pos)
        requires
            self.wf(),
            b <= self.bytes().len(),
        ensures
            r == point_of(self.bytes(), line_start_of(self.bytes(), b as int)),
    {
        let ls = self.line_start(b);
        self.point_at(ls)
    }

    /// The line of the character of index `c`, or the last line where
    /// the text has no such character.
    pub fn char_to_line(&self, c: usize) -> (r: usize)
        requires
            self.wf(),
        ensures
            r == newlines_upto(self.bytes(), char_start_from(self.bytes(), 0, c as nat)),
    {
        let b = self.char_to_byte(c);
        proof {
            lemma_counts_monotone(self.bytes(), 0, b as int);
        }
        self.point_at(b).row
    }

    /// The index of the first character of line `row`, or the number of
    /// characters where the text has no such line.
    pub fn line_to_char(&self, row: usize) -> (r: usize)
        requires
            self.wf(),
        ensures
            r == chars_upto(self.bytes(), row_start_from(self.bytes(), 0, row as nat)),
    {
        let b = self.line_to_byte(row);
        proof {
            lemma_counts_monotone(self.bytes(), 0, b as int);
        }
        self.point_at(b).ch
    }

    /// The character of index `c`, if the text has one.
    pub fn get_char(&self, c: usize) -> (r: Option<char>)
        requires
            self.wf(),
        ensures
            r is Some <==> c < self.spec_len_chars(),
            r is Some ==> r.unwrap() == char_of(
                self.bytes(),
                char_start_from(self.bytes(), 0, c as nat),
            ),
    {
        let b = self.char_to_byte(c);
        self.char_at(b)
    }

    /// The byte offset of the character of index `c`, if it is no more
    /// than the number of characters.
    pub fn get_char_to_byte(&self, c: usize) -> (r: Option<usize>)
        requires
            self.wf(),
        ensures
            r == if c <= self.spec_len_chars() {
                Some(char_start_from(self.bytes(), 0, c as nat) as usize)
            } else {
                None
            },
    {
        if c <= self.len_chars() {
            Some(self.char_to_byte(c))
        } else {
            None
        }
    }

    /// The line of the character of index `c`, if it is no more than the
    /// number of characters.
    pub fn get_char_to_line(&self, c: usize) -> (r: Option<usize>)
        requires
            self.wf(),
        ensures
            r == if c <= self.spec_len_chars() {
                Some(
                    newlines_upto(
                        self.bytes(),
                        char_start_from(self.bytes(), 0, c as nat),
                    ) as usize,
                )
            } else {
                None
            },
    {
        if c <= self.len_chars() {
            Some(self.char_to_line(c))
        } else {
            None
        }
    }

    /// The index of the first character of line `row`, if the text has
    /// such a line.
    pub fn get_line_to_char(&self, row: usize) -> (r: Option<usize>)
        requires
            self.wf(),
        ensures
            r == if row < self.spec_len_lines() {
                Some(
                    chars_upto(self.bytes(), row_start_from(self.bytes(), 0, row as nat)) as usize,
                )
            } else {
                None
            },
    {
        if row < self.len_lines() {
            Some(self.line_to_char(row))
        } else {
            None
        }
    }
}

impl File {
    /// Takes out every cursor but the main one.
    pub fn remove_extra_cursors(&mut self)
        requires
            old(self).wf(),
        ensures
            final(self).wf(),
            final(self).text.bytes() == old(self).text.bytes(),
            final(self).history == old(self).history,
            final(self).print_info == old(self).print_info,
            final(self).cfg == old(self).cfg,
            final(self).cursors.main == 0,
            final(self).cursors.list@ == if old(self).cursors.list@.len() > 0 {
                seq![old(self).cursors.list@[old(self).cursors.main as int]]
            } else {
                old(self).cursors.list@
            },
            final(self).text.tags@ == with_cursors(
                old(self).plain_tags(),
                final(self).cursors.list@,
                0,
                old(self).text.marker,
            ),
    {
        self.text.remove_cursor_tags(&self.cursors);
        proof {
            if self.cursors.list@.len() > 0 {
                assert(self.cursors.list@[self.cursors.main as int].wf_in(self.text.bytes()));
            }
        }
        self.cursors.remove_extras();
        self.text.add_cursor_tags(&self.cursors);
    }

    /// Makes the next cursor the main one, and the first after the last.
    pub fn rotate_main_fwd(&mut self)
        requires
            old(self).wf(),
        ensures
            final(self).wf(),
            final(self).text.bytes() == old(self).text.bytes(),
            final(self).history == old(self).history,
            final(self).print_info == old(self).print_info,
            final(self).cfg == old(self).cfg,
            final(self).cursors.list == old(self).cursors.list,
            final(self).cursors.main == if old(self).cursors.main + 1 < old(
                self,
            ).cursors.list@.len() {
                (old(self).cursors.main + 1) as usize
            } else {
                0
            },
            final(self).text.tags@ == with_cursors(
                old(self).plain_tags(),
                final(self).cursors.list@,
                final(self).cursors.main,
                old(self).text.marker,
            ),
    {
        self.text.remove_cursor_tags(&self.cursors);
        self.cursors.rotate_main_fwd();
        self.text.add_cursor_tags(&self.cursors);
    }

    /// Makes the cursor before the main one the main one, and the last
    /// before the first.
    pub fn rotate_main_rev(&mut self)
        requires
            old(self).wf(),
        ensures
            final(self).wf(),
            final(self).text.bytes() == old(self).text.bytes(),
            final(self).history == old(self).history,
            final(self).print_info == old(self).print_info,
            final(self).cfg == old(self).cfg,
            final(self).cursors.list == old(self).cursors.list,
            final(self).cursors.main == if old(self).cursors.main > 0 {
                (old(self).cursors.main - 1) as usize
            } else if old(self).cursors.list@.len() > 0 {
                (old(self).cursors.list@.len() - 1) as usize
            } else {
                0
            },
            final(self).text.tags@ == with_cursors(
                old(self).plain_tags(),
                final(self).cursors.list@,
                final(self).cursors.main,
                old(self).text.marker,
            ),
    {
        self.text.remove_cursor_tags(&self.cursors);
        self.cursors.rotate_main_rev();
        self.text.add_cursor_tags(&self.cursors);
    }

    /// The main cursor, if there is a cursor.
    pub fn main_cursor(&self) -> (r: Option<Cursor>)
        requires
            self.wf(),
        ensures
            r == if self.cursors.list@.len() > 0 {
                Some(self.cursors.list@[self.cursors.main as int])
            } else {
                None
            },
    {
        self.cursors.get_main()
    }

    /// The cursor of index `n`, if there is one.
    pub fn get_cursor(&self, n: usize) -> (r: Option<Cursor>)
        ensures
            r == if n < self.cursors.list@.len() {
                Some(self.cursors.list@[n as int])
            } else {
                None
            },
    {
        self.cursors.get(n)
    }

    /// The index of the main cursor.
    pub fn main_cursor_index(&self) -> (r: usize)
        ensures
            r == self.cursors.main,
    {
        self.cursors.main_index()
    }

    /// The number of cursors.
    pub fn cursors_len(&self) -> (r: usize)
        ensures
            r == self.cursors.list@.len(),
    {
        self.cursors.len()
    }

    /// The configuration of the printing.
    pub fn cfg(&self) -> (r: &PrintCfg)
        ensures
            *r == self.cfg,
    {
        &self.cfg
    }

    /// The characters that make up words.
    pub fn w_chars(&self) -> (r: &WordChars)
        ensures
            *r == self.cfg.word_chars,
    {
        &self.cfg.word_chars
    }

    /// The history of the changes.
    pub fn history(&self) -> (r: &History)
        ensures
            *r == self.history,
    {
        &self.history
    }

    /// The cursors.
    pub fn cursors(&self) -> (r: &Cursors)
        ensures
            *r == self.cursors,
    {
        &self.cursors
    }

    /// The text.
    pub fn text(&self) -> (r: &Text)
        ensures
            *r == self.text,
    {
        &self.text
    }
}

impl Mover {
    /// Whether the anchor, if there is one, stands before the caret.
    pub fn anchor_is_start(&self) -> (r: bool)
        ensures
            r == match self.cursor.anchor {
                Some(a) => a.byte < self.cursor.caret.byte,
                None => true,
            },
    {
        match self.cursor.anchor {
            Some(a) => a.byte < self.cursor.caret.byte,
            None => true,
        }
    }

    /// The character at the caret, if the caret is not at the end.
    pub fn char(&self, text: &Text) -> (r: Option<char>)
        requires
            text.wf(),
        ensures
            r is Some <==> self.cursor.caret.byte < text.bytes().len() && is_start(
                text.bytes()[self.cursor.caret.byte as int],
            ),
            r is Some ==> r.unwrap() == char_of(text.bytes(), self.cursor.caret.byte as int),
    {
        text.char_at(self.cursor.caret.byte)
    }

    /// The bytes of the selection.
    pub fn selection(&self, text: &Text) -> (r: Vec<u8>)
        requires
            text.wf(),
            self.cursor.wf_in(text.bytes()),
        ensures
            r@ == text.bytes().subrange(
                self.cursor.start_byte() as int,
                self.cursor.end_byte() as int,
            ),
    {
        let (start, end) = self.cursor.range();
        text.bytes_in(start, end)
    }
}

} // verus!
