//! The text: UTF-8 bytes in a gap buffer, with the tags that annotate them.

use crate::buffer::{
    buf_as_slices, buf_from_slice, buf_gap, buf_get, buf_len, buf_set_gap, buf_splice, buffer_bytes,
    buffer_gap, byte_is_start, chars_upto, col_upto,
    is_start, lemma_boundary_is_char_boundary, lemma_counts_monotone, lemma_splice_boundary,
    lemma_splice_valid, newlines_upto, on_boundary, scalar_len, spec_scalar_len, spliced,
    str_from_utf8, GapBytes, MAX_LEN,
};
use crate::parts::Part;
use crate::position::Pos;
use crate::tags::{
    count_upto, lemma_count_upto, lemma_removed_on, lemma_transformed, moved_offset, removed_on,
    transformed, GhostId, Marker, Tag, TagEntry, Tags,
};
use vstd::prelude::*;
use vstd::utf8::*;

verus! {

/// A text: its bytes, its tags, the marker that owns the tags of its
/// cursors, and the ghost texts that its tags show.
pub struct Text {
    pub buf: GapBytes,
    pub tags: Tags,
    pub marker: Marker,
    pub ghosts: Vec<Vec<Part>>,
}

/// The position at offset `b` of `bytes`.
pub open spec fn point_of(bytes: Seq<u8>, b: int) -> Pos {
    Pos {
        byte: b as usize,
        ch: chars_upto(bytes, b) as usize,
        col: col_upto(bytes, b) as usize,
        row: newlines_upto(bytes, b) as usize,
    }
}

/// The character that begins at offset `b` of `bytes`.
pub open spec fn char_of(bytes: Seq<u8>, b: int) -> char {
    decode_first_scalar(bytes.subrange(b, bytes.len() as int)) as char
}

/// The offset at or before `b` that lies between two characters and is
/// nearest to it.
pub open spec fn snap_of(bytes: Seq<u8>, b: int) -> int
    decreases b,
{
    if b >= bytes.len() {
        bytes.len() as int
    } else if b <= 0 || is_start(bytes[b]) {
        if b < 0 {
            0
        } else {
            b
        }
    } else {
        snap_of(bytes, b - 1)
    }
}

/// The offset at which the line that holds offset `b` begins.
pub open spec fn line_start_of(bytes: Seq<u8>, b: int) -> int
    decreases b,
{
    if b <= 0 || b > bytes.len() {
        0
    } else if bytes[b - 1] == 10u8 {
        b
    } else {
        line_start_of(bytes, b - 1)
    }
}

/// The offset of the line feed that ends the line that holds offset `b`,
/// or the length of the text where none does.
pub open spec fn line_end_of(bytes: Seq<u8>, b: int) -> int
    decreases bytes.len() - b,
{
    if b < 0 || b >= bytes.len() {
        bytes.len() as int
    } else if bytes[b] == 10u8 {
        b
    } else {
        line_end_of(bytes, b + 1)
    }
}

/// The offset at which the character of index `c` begins, counted from
/// offset `i` on, or the length of the text where there is none.
pub open spec fn char_start_from(bytes: Seq<u8>, i: int, c: nat) -> int
    decreases bytes.len() - i,
{
    if i < 0 || i >= bytes.len() {
        bytes.len() as int
    } else if is_start(bytes[i]) {
        if c == 0 {
            i
        } else {
            char_start_from(bytes, i + 1, (c - 1) as nat)
        }
    } else {
        char_start_from(bytes, i + 1, c)
    }
}

/// The offset at which line `r` begins, counted from offset `i` on, or
/// the length of the text where there is none.
pub open spec fn row_start_from(bytes: Seq<u8>, i: int, r: nat) -> int
    decreases bytes.len() - i,
{
    if r == 0 {
        i
    } else if i < 0 || i >= bytes.len() {
        bytes.len() as int
    } else if bytes[i] == 10u8 {
        row_start_from(bytes, i + 1, (r - 1) as nat)
    } else {
        row_start_from(bytes, i + 1, r)
    }
}

/// Whether `p` is a position of `bytes`: it lies between two characters
/// and its indices are those of its byte offset.
pub open spec fn valid_pos(bytes: Seq<u8>, p: Pos) -> bool {
    on_boundary(bytes, p.byte as int) && p == point_of(bytes, p.byte as int)
}

/// Snapping gives an offset between two characters, at or before the
/// offset asked for and within the text.
pub proof fn lemma_snap(bytes: Seq<u8>, b: int)
    requires
        valid_utf8(bytes),
        0 <= b,
    ensures
        on_boundary(bytes, snap_of(bytes, b)),
        snap_of(bytes, b) <= b,
        on_boundary(bytes, b) ==> snap_of(bytes, b) == b,
    decreases b,
{
    crate::buffer::lemma_valid_starts_with_start(bytes);
    if b < bytes.len() && b > 0 && !is_start(bytes[b]) {
        lemma_snap(bytes, b - 1);
    }
}

/// Snapping gives an offset within the text.
pub proof fn lemma_snap_bounds(bytes: Seq<u8>, b: int)
    requires
        0 <= b,
    ensures
        0 <= snap_of(bytes, b) <= bytes.len(),
    decreases b,
{
    if b < bytes.len() && b > 0 && !is_start(bytes[b]) {
        lemma_snap_bounds(bytes, b - 1);
    }
}

/// A line begins at or before each of its offsets, at the start of the
/// text or just after a line feed, and between two characters.
pub proof fn lemma_line_start(bytes: Seq<u8>, b: int)
    requires
        valid_utf8(bytes),
        0 <= b <= bytes.len(),
    ensures
        0 <= line_start_of(bytes, b) <= b,
        on_boundary(bytes, line_start_of(bytes, b)),
        newlines_upto(bytes, line_start_of(bytes, b)) == newlines_upto(bytes, b),
    decreases b,
{
    crate::buffer::lemma_valid_starts_with_start(bytes);
    if b > 0 {
        if bytes[b - 1] == 10u8 {
            crate::parts::lemma_scalar_end_is_boundary(bytes, b - 1);
        } else {
            lemma_line_start(bytes, b - 1);
        }
    }
}

/// A line ends at or after each of its offsets, on a line feed or at the
/// end of the text.
pub proof fn lemma_line_end(bytes: Seq<u8>, b: int)
    requires
        0 <= b <= bytes.len(),
    ensures
        b <= line_end_of(bytes, b) <= bytes.len(),
        on_boundary(bytes, line_end_of(bytes, b)),
    decreases bytes.len() - b,
{
    if b < bytes.len() && bytes[b] != 10u8 {
        lemma_line_end(bytes, b + 1);
    }
}

/// Whether every tag lies between two characters of `bytes`, and every
/// ghost text that a tag names exists.
pub open spec fn tags_fit(tags: Seq<TagEntry>, bytes: Seq<u8>, ghosts: int) -> bool {
    forall|i: int|
        0 <= i < tags.len() ==> on_boundary(bytes, (#[trigger] tags[i]).offset as int) && (tags[i].tag
            matches Tag::GhostText(g) ==> g.id < ghosts)
}

impl Text {
    /// The bytes of the text.
    pub open spec fn bytes(&self) -> Seq<u8> {
        buffer_bytes(&self.buf)
    }

    /// Whether the bytes are valid UTF-8 of a length within the limit, and
    /// the tags are in order and each between two characters.
    pub open spec fn wf(&self) -> bool {
        &&& valid_utf8(self.bytes())
        &&& self.bytes().len() <= MAX_LEN
        &&& self.tags.wf()
        &&& tags_fit(self.tags@, self.bytes(), self.ghosts@.len() as int)
    }

    /// The number of characters.
    pub open spec fn spec_len_chars(&self) -> nat {
        chars_upto(self.bytes(), self.bytes().len() as int)
    }

    /// The number of lines: one more than the number of line feeds.
    pub open spec fn spec_len_lines(&self) -> nat {
        newlines_upto(self.bytes(), self.bytes().len() as int) + 1
    }

    /// The text of a string, without tags.
    pub fn new(string: &str) -> (r: Self)
        requires
            encode_utf8(string@).len() <= MAX_LEN,
        ensures
            r.bytes() == encode_utf8(string@),
            r.tags@.len() == 0,
            r.marker == (Marker { id: 0 }),
            r.ghosts@.len() == 0,
            r.wf(),
    {
        proof {
            encode_utf8_valid_utf8(string@);
        }
        Text {
            buf: buf_from_slice(string.as_bytes()),
            tags: Tags::new(),
            marker: Marker { id: 0 },
            ghosts: Vec::new(),
        }
    }

    /// Whether the text holds no bytes.
    pub fn is_empty(&self) -> (r: bool)
        ensures
            r == (self.bytes().len() == 0),
    {
        buf_len(&self.buf) == 0
    }

    /// The number of bytes.
    pub fn len_bytes(&self) -> (r: usize)
        ensures
            r == self.bytes().len(),
    {
        buf_len(&self.buf)
    }

    /// The number of characters.
    pub fn len_chars(&self) -> (r: usize)
        requires
            self.wf(),
        ensures
            r == self.spec_len_chars(),
    {
        let len = buf_len(&self.buf);
        proof {
            lemma_counts_monotone(self.bytes(), 0, len as int);
        }
        self.point_at(len).ch
    }

    /// The number of lines.
    pub fn len_lines(&self) -> (r: usize)
        requires
            self.wf(),
        ensures
            r == self.spec_len_lines(),
    {
        let len = buf_len(&self.buf);
        proof {
            lemma_counts_monotone(self.bytes(), 0, len as int);
        }
        self.point_at(len).row + 1
    }

    /// The bytes of `start..end`, copied out.
    pub fn bytes_in(&self, start: usize, end: usize) -> (r: Vec<u8>)
        requires
            start <= end <= self.bytes().len(),
        ensures
            r@ == self.bytes().subrange(start as int, end as int),
    {
        let mut out: Vec<u8> = Vec::new();
        let mut i: usize = start;
        while i < end
            invariant
                start <= i <= end <= self.bytes().len(),
                out@ == self.bytes().subrange(start as int, i as int),
            decreases end - i,
        {
            out.push(buf_get(&self.buf, i));
            proof {
                assert(self.bytes().subrange(start as int, i + 1) == self.bytes().subrange(
                    start as int,
                    i as int,
                ).push(self.bytes()[i as int]));
            }
            i += 1;
        }
        out
    }

    /// The text as a string.
    pub fn contents(&self) -> (r: String)
        requires
            self.wf(),
        ensures
            encode_utf8(r@) == self.bytes(),
    {
        let len = buf_len(&self.buf);
        let bytes = self.bytes_in(0, len);
        proof {
            assert(bytes@ =~= self.bytes());
        }
        match str_from_utf8(bytes.as_slice()) {
            Some(s) => s.to_owned(),
            None => {
                proof {
                    assert(false);
                }
                String::new()
            },
        }
    }

    /// Whether offset `b` lies between two characters.
    pub fn is_boundary(&self, b: usize) -> (r: bool)
        ensures
            r == on_boundary(self.bytes(), b as int),
    {
        let len = buf_len(&self.buf);
        if b > len {
            false
        } else if b == len {
            true
        } else {
            byte_is_start(buf_get(&self.buf, b))
        }
    }

    /// The position at byte offset `b`.
    pub fn point_at(&self, b: usize) -> (r: Pos)
        requires
            self.bytes().len() <= MAX_LEN,
            b <= self.bytes().len(),
        ensures
            r == point_of(self.bytes(), b as int),
    {
        let mut ch: usize = 0;
        let mut col: usize = 0;
        let mut row: usize = 0;
        let mut i: usize = 0;
        while i < b
            invariant
                i <= b <= self.bytes().len() <= MAX_LEN,
                ch == chars_upto(self.bytes(), i as int),
                col == col_upto(self.bytes(), i as int),
                row == newlines_upto(self.bytes(), i as int),
                ch <= i,
                col <= i,
                row <= i,
            decreases b - i,
        {
            let x = buf_get(&self.buf, i);
            if x == 10 {
                row += 1;
                col = 0;
                ch += 1;
            } else if byte_is_start(x) {
                ch += 1;
                col += 1;
            }
            i += 1;
        }
        Pos { byte: b, ch, col, row }
    }

    /// The byte offset at which the character of index `c` begins, or the
    /// length of the text where it has no such character.
    pub fn char_to_byte(&self, c: usize) -> (r: usize)
        requires
            self.bytes().len() <= MAX_LEN,
        ensures
            r <= self.bytes().len(),
            c < self.spec_len_chars() ==> r < self.bytes().len() && is_start(self.bytes()[r as int])
                && chars_upto(self.bytes(), r as int) == c,
            c >= self.spec_len_chars() ==> r == self.bytes().len(),
            r == char_start_from(self.bytes(), 0, c as nat),
    {
        let len = buf_len(&self.buf);
        let mut ch: usize = 0;
        let mut i: usize = 0;
        while i < len
            invariant
                i <= len == self.bytes().len() <= MAX_LEN,
                ch == chars_upto(self.bytes(), i as int),
                ch <= c,
                ch <= i,
                char_start_from(self.bytes(), 0, c as nat) == char_start_from(
                    self.bytes(),
                    i as int,
                    (c - ch) as nat,
                ),
            decreases len - i,
        {
            let x = buf_get(&self.buf, i);
            if byte_is_start(x) {
                if ch == c {
                    proof {
                        lemma_counts_monotone(self.bytes(), i + 1, len as int);
                    }
                    return i;
                }
                ch += 1;
            }
            i += 1;
        }
        len
    }

    /// The byte offset at which line `row` begins, or the length of the
    /// text where it has no such line.
    pub fn line_to_byte(&self, row: usize) -> (r: usize)
        requires
            self.bytes().len() <= MAX_LEN,
        ensures
            r <= self.bytes().len(),
            row < self.spec_len_lines() ==> newlines_upto(self.bytes(), r as int) == row && (r == 0
                || self.bytes()[r - 1] == 10u8),
            row >= self.spec_len_lines() ==> r == self.bytes().len(),
            r == row_start_from(self.bytes(), 0, row as nat),
    {
        let len = buf_len(&self.buf);
        if row == 0 {
            return 0;
        }
        let mut seen: usize = 0;
        let mut i: usize = 0;
        while i < len
            invariant
                i <= len == self.bytes().len() <= MAX_LEN,
                seen == newlines_upto(self.bytes(), i as int),
                seen < row,
                seen <= i,
                row_start_from(self.bytes(), 0, row as nat) == row_start_from(
                    self.bytes(),
                    i as int,
                    (row - seen) as nat,
                ),
            decreases len - i,
        {
            let x = buf_get(&self.buf, i);
            i += 1;
            if x == 10 {
                seen += 1;
                if seen == row {
                    proof {
                        lemma_counts_monotone(self.bytes(), i as int, len as int);
                        assert(row_start_from(self.bytes(), i as int, 0) == i);
                        assert(row_start_from(self.bytes(), i - 1, 1) == row_start_from(
                            self.bytes(),
                            i as int,
                            0,
                        ));
                    }
                    return i;
                }
            }
        }
        len
    }

    /// The character that begins at byte offset `b`, if one does.
    pub fn char_at(&self, b: usize) -> (r: Option<char>)
        requires
            self.wf(),
        ensures
            r is Some <==> b < self.bytes().len() && is_start(self.bytes()[b as int]),
            r is Some ==> r.unwrap() == char_of(self.bytes(), b as int) && b + spec_scalar_len(
                self.bytes()[b as int],
            ) <= self.bytes().len(),
    {
        let len = buf_len(&self.buf);
        if b >= len {
            return None;
        }
        let b0 = buf_get(&self.buf, b);
        if !byte_is_start(b0) {
            return None;
        }
        let w = scalar_len(b0);
        let ghost bytes = self.bytes();
        let ghost tail = bytes.subrange(b as int, bytes.len() as int);
        proof {
            lemma_boundary_is_char_boundary(bytes, b as int);
            valid_utf8_split(bytes, b as int);
            assert(tail[0] == b0);
            assert(valid_first_scalar(tail));
            assert(length_of_first_scalar(tail) == w);
            reveal_with_fuel(valid_utf8, 2);
            assert(valid_utf8(take_first_scalar(tail)));
        }
        let one = self.bytes_in(b, b + w);
        proof {
            assert(one@ == take_first_scalar(tail));
        }
        match str_from_utf8(one.as_slice()) {
            Some(s) => {
                proof {
                    encode_utf8_decode_utf8(s@);
                    assert(decode_utf8(one@) == s@);
                    assert(decode_first_scalar(one@) == decode_first_scalar(tail));
                    assert(s@.len() > 0);
                }
                Some(s.get_char(0))
            },
            None => None,
        }
    }

    /// The offset at or before `b` that lies between two characters and
    /// is nearest to it.
    pub fn snap(&self, b: usize) -> (r: usize)
        requires
            self.wf(),
        ensures
            r == snap_of(self.bytes(), b as int),
            on_boundary(self.bytes(), r as int),
            r <= b,
    {
        proof {
            lemma_snap(self.bytes(), b as int);
        }
        let len = buf_len(&self.buf);
        if b >= len {
            return len;
        }
        let mut i: usize = b;
        while i > 0 && !byte_is_start(buf_get(&self.buf, i))
            invariant
                i <= b < len == self.bytes().len(),
                snap_of(self.bytes(), b as int) == snap_of(self.bytes(), i as int),
            decreases i,
        {
            i -= 1;
        }
        i
    }

    /// The valid position at or before offset `b` that is nearest to it.
    pub fn point_near(&self, b: usize) -> (r: Pos)
        requires
            self.wf(),
        ensures
            r == point_of(self.bytes(), snap_of(self.bytes(), b as int)),
            valid_pos(self.bytes(), r),
    {
        let s = self.snap(b);
        self.point_at(s)
    }

    /// The offset at which the line that holds offset `b` begins.
    pub fn line_start(&self, b: usize) -> (r: usize)
        requires
            self.wf(),
            b <= self.bytes().len(),
        ensures
            r == line_start_of(self.bytes(), b as int),
            r <= b,
            on_boundary(self.bytes(), r as int),
    {
        proof {
            lemma_line_start(self.bytes(), b as int);
        }
        let mut i: usize = b;
        while i > 0 && buf_get(&self.buf, i - 1) != 10
            invariant
                i <= b <= self.bytes().len(),
                line_start_of(self.bytes(), b as int) == line_start_of(self.bytes(), i as int),
            decreases i,
        {
            i -= 1;
        }
        i
    }

    /// The offset of the line feed that ends the line that holds offset
    /// `b`, or the length of the text where none does.
    pub fn line_end(&self, b: usize) -> (r: usize)
        requires
            b <= self.bytes().len(),
        ensures
            r == line_end_of(self.bytes(), b as int),
            b <= r <= self.bytes().len(),
            on_boundary(self.bytes(), r as int),
    {
        proof {
            lemma_line_end(self.bytes(), b as int);
        }
        let len = buf_len(&self.buf);
        let mut i: usize = b;
        while i < len && buf_get(&self.buf, i) != 10
            invariant
                b <= i <= len == self.bytes().len(),
                line_end_of(self.bytes(), b as int) == line_end_of(self.bytes(), i as int),
            decreases len - i,
        {
            i += 1;
        }
        i
    }

    /// Moves the gap of the buffer out of the range `start..end`, so that
    /// the bytes of the range lie in one piece. The text stays what it
    /// is.
    pub fn make_contiguous_in(&mut self, start: usize, end: usize)
        requires
            start <= end <= old(self).bytes().len(),
        ensures
            final(self).bytes() == old(self).bytes(),
            final(self).tags == old(self).tags,
            final(self).marker == old(self).marker,
            final(self).ghosts == old(self).ghosts,
            buffer_gap(&final(self).buf) <= start || buffer_gap(&final(self).buf) >= end,
    {
        let gap = buf_gap(&self.buf);
        if start < gap && gap < end {
            buf_set_gap(&mut self.buf, end);
        }
    }

    /// The bytes of `start..end`, which the gap of the buffer does not
    /// part, as one slice.
    pub fn continuous_in(&self, start: usize, end: usize) -> (r: &[u8])
        requires
            start <= end <= self.bytes().len(),
            buffer_gap(&self.buf) <= start || buffer_gap(&self.buf) >= end,
        ensures
            r@ == self.bytes().subrange(start as int, end as int),
    {
        let gap = buf_gap(&self.buf);
        let (s0, s1) = buf_as_slices(&self.buf);
        proof {
            assert(s0@ =~= self.bytes().subrange(0, gap as int));
            assert(s1@ =~= self.bytes().subrange(gap as int, self.bytes().len() as int));
        }
        if gap >= end {
            let r = vstd::slice::slice_subrange(s0, start, end);
            proof {
                assert(r@ =~= self.bytes().subrange(start as int, end as int));
            }
            r
        } else {
            let r = vstd::slice::slice_subrange(s1, start - gap, end - gap);
            proof {
                assert(r@ =~= self.bytes().subrange(start as int, end as int));
            }
            r
        }
    }

    /// Replaces the bytes of `start..end`, a range between characters, by
    /// `edit`, and moves the tags with the text: those strictly inside the
    /// range go, those at its start stay, and those after its start and at
    /// or after its end follow the text.
    pub fn replace_range(&mut self, start: usize, end: usize, edit: &[u8])
        requires
            old(self).wf(),
            start <= end,
            on_boundary(old(self).bytes(), start as int),
            on_boundary(old(self).bytes(), end as int),
            valid_utf8(edit@),
            old(self).bytes().len() - (end - start) + edit@.len() <= MAX_LEN,
        ensures
            final(self).bytes() == spliced(old(self).bytes(), start as int, end as int, edit@),
            final(self).tags@ == transformed(
                old(self).tags@,
                start as int,
                end as int,
                start + edit@.len(),
            ),
            final(self).marker == old(self).marker,
            final(self).ghosts == old(self).ghosts,
            final(self).wf(),
    {
        let ghost bytes = self.bytes();
        let ghost tags = self.tags@;
        let new_end = start + edit.len();
        buf_splice(&mut self.buf, start, end, edit);
        self.tags.transform_range(start, end, new_end);
        proof {
            lemma_splice_valid(bytes, start as int, end as int, edit@);
            lemma_transformed(tags, start as int, end as int, new_end as int);
            let new_tags = self.tags@;
            assert forall|i: int| 0 <= i < new_tags.len() implies on_boundary(
                self.bytes(),
                (#[trigger] new_tags[i]).offset as int,
            ) && (new_tags[i].tag matches Tag::GhostText(g) ==> g.id < self.ghosts@.len()) by {
                let k = choose|k: int|
                    0 <= k < tags.len() && moved_offset(
                        tags[k].offset as int,
                        start as int,
                        end as int,
                        new_end as int,
                    ) == Some(new_tags[i].offset as int) && tags[k].tag == new_tags[i].tag
                        && tags[k].marker == new_tags[i].marker;
                lemma_splice_boundary(
                    bytes,
                    start as int,
                    end as int,
                    edit@,
                    tags[k].offset as int,
                );
            }
        }
    }

    /// Attaches a tag to offset `b`, which lies between two characters.
    pub fn insert_tag(&mut self, b: usize, tag: Tag, marker: Marker)
        requires
            old(self).wf(),
            on_boundary(old(self).bytes(), b as int),
            tag matches Tag::GhostText(g) ==> g.id < old(self).ghosts@.len(),
        ensures
            final(self).bytes() == old(self).bytes(),
            final(self).tags@ == old(self).tags@.insert(
                count_upto(old(self).tags@, b),
                TagEntry { offset: b, tag, marker },
            ),
            final(self).marker == old(self).marker,
            final(self).ghosts == old(self).ghosts,
            final(self).wf(),
    {
        proof {
            lemma_count_upto(self.tags@, b);
        }
        self.tags.insert(b, tag, marker);
    }

    /// Removes the tags at offset `b` that one of `markers` owns.
    pub fn remove_on(&mut self, b: usize, markers: &Vec<Marker>)
        requires
            old(self).wf(),
        ensures
            final(self).bytes() == old(self).bytes(),
            final(self).tags@ == removed_on(old(self).tags@, b, markers@),
            final(self).marker == old(self).marker,
            final(self).ghosts == old(self).ghosts,
            final(self).wf(),
    {
        let ghost tags = self.tags@;
        self.tags.remove_on(b, markers);
        proof {
            lemma_removed_on(tags, b, markers@);
            assert forall|i: int| 0 <= i < self.tags@.len() implies on_boundary(
                self.bytes(),
                (#[trigger] self.tags@[i]).offset as int,
            ) && (self.tags@[i].tag matches Tag::GhostText(g) ==> g.id < self.ghosts@.len()) by {
                assert(tags.contains(self.tags@[i]));
            }
        }
    }

    /// Stores a ghost text, given as the parts that it shows, and attaches
    /// it to offset `b`.
    pub fn insert_ghost(&mut self, b: usize, parts: Vec<Part>, marker: Marker) -> (id: GhostId)
        requires
            old(self).wf(),
            on_boundary(old(self).bytes(), b as int),
        ensures
            id.id == old(self).ghosts@.len(),
            final(self).ghosts@ == old(self).ghosts@.push(parts),
            final(self).bytes() == old(self).bytes(),
            final(self).tags@ == old(self).tags@.insert(
                count_upto(old(self).tags@, b),
                TagEntry { offset: b, tag: Tag::GhostText(id), marker },
            ),
            final(self).marker == old(self).marker,
            final(self).wf(),
    {
        let id = GhostId { id: self.ghosts.len() };
        self.ghosts.push(parts);
        self.insert_tag(b, Tag::GhostText(id), marker);
        id
    }
}

} // verus!
