//! Changes to a text and their history: moments of changes that are undone
//! and redone together, and the merging of a change into the one before.

use crate::buffer::{
    chars_upto, lemma_boundary_is_char_boundary, lemma_splice_boundary, lemma_splice_valid,
    on_boundary, spliced, MAX_LEN,
};
use crate::text::Text;
use vstd::prelude::*;
use vstd::utf8::{encode_utf8, encode_utf8_valid_utf8, valid_utf8, valid_utf8_split};

verus! {

/// A change to a text: at `start` the bytes `taken` left and the bytes
/// `added` came.
#[derive(Clone, Debug)]
pub struct Change {
    pub start: usize,
    pub taken: Vec<u8>,
    pub added: Vec<u8>,
}

/// The number of characters that begin in `bytes`.
pub fn count_chars(bytes: &Vec<u8>) -> (r: usize)
    ensures
        r == chars_upto(bytes@, bytes@.len() as int),
        r <= bytes@.len(),
{
    let mut n: usize = 0;
    let mut i: usize = 0;
    while i < bytes.len()
        invariant
            i <= bytes@.len(),
            n == chars_upto(bytes@, i as int),
            n <= i,
        decreases bytes.len() - i,
    {
        if crate::buffer::byte_is_start(bytes[i]) {
            n += 1;
        }
        i += 1;
    }
    n
}

impl Change {
    /// The end of what was taken.
    pub open spec fn spec_taken_end(&self) -> int {
        self.start + self.taken@.len()
    }

    /// The end of what was added.
    pub open spec fn spec_added_end(&self) -> int {
        self.start + self.added@.len()
    }

    /// The number of characters added less the number taken.
    pub open spec fn spec_chars_diff(&self) -> int {
        chars_upto(self.added@, self.added@.len() as int) - chars_upto(
            self.taken@,
            self.taken@.len() as int,
        )
    }

    /// Whether both texts are valid UTF-8 and both ends within the limit.
    pub open spec fn wf(&self) -> bool {
        &&& valid_utf8(self.taken@)
        &&& valid_utf8(self.added@)
        &&& self.spec_taken_end() <= MAX_LEN
        &&& self.spec_added_end() <= MAX_LEN
    }

    /// The change that replaces the bytes of `start..end` of `text` by
    /// `edit`.
    pub fn new(edit: &str, start: usize, end: usize, text: &Text) -> (r: Change)
        requires
            text.wf(),
            start <= end <= text.bytes().len(),
            on_boundary(text.bytes(), start as int),
            on_boundary(text.bytes(), end as int),
            text.bytes().len() - (end - start) + encode_utf8(edit@).len() <= MAX_LEN,
        ensures
            r.start == start,
            r.taken@ == text.bytes().subrange(start as int, end as int),
            r.added@ == encode_utf8(edit@),
            fits(text.bytes(), r),
    {
        let taken = text.bytes_in(start, end);
        let added = vstd::slice::slice_to_vec(edit.as_bytes());
        proof {
            let bytes = text.bytes();
            encode_utf8_valid_utf8(edit@);
            lemma_boundary_is_char_boundary(bytes, start as int);
            lemma_boundary_is_char_boundary(bytes, end as int);
            valid_utf8_split(bytes, end as int);
            let head = bytes.subrange(0, end as int);
            assert(on_boundary(head, start as int));
            lemma_boundary_is_char_boundary(head, start as int);
            valid_utf8_split(head, start as int);
            assert(head.subrange(start as int, end as int) == bytes.subrange(
                start as int,
                end as int,
            ));
        }
        Change { start, taken, added }
    }

    /// The number of characters added less the number taken.
    pub fn chars_diff(&self) -> (r: isize)
        requires
            self.wf(),
        ensures
            r == self.spec_chars_diff(),
    {
        let added = count_chars(&self.added);
        let taken = count_chars(&self.taken);
        added as isize - taken as isize
    }

    /// The end of what was taken.
    pub fn taken_end(&self) -> (r: usize)
        requires
            self.wf(),
        ensures
            r == self.spec_taken_end(),
    {
        self.start + self.taken.len()
    }

    /// The end of what was added.
    pub fn added_end(&self) -> (r: usize)
        requires
            self.wf(),
        ensures
            r == self.spec_added_end(),
    {
        self.start + self.added.len()
    }
}

/// `bytes` after the change.
pub open spec fn applied(bytes: Seq<u8>, c: Change) -> Seq<u8> {
    spliced(bytes, c.start as int, c.spec_taken_end(), c.added@)
}

/// `bytes` with the change taken back.
pub open spec fn undone(bytes: Seq<u8>, c: Change) -> Seq<u8> {
    spliced(bytes, c.start as int, c.spec_added_end(), c.taken@)
}

/// Whether the change can be made to `bytes`: what it takes is there,
/// between two characters, and the result stays within the limit.
pub open spec fn fits(bytes: Seq<u8>, c: Change) -> bool {
    &&& c.wf()
    &&& valid_utf8(bytes)
    &&& bytes.len() <= MAX_LEN
    &&& c.spec_taken_end() <= bytes.len()
    &&& bytes.subrange(c.start as int, c.spec_taken_end()) == c.taken@
    &&& on_boundary(bytes, c.start as int)
    &&& on_boundary(bytes, c.spec_taken_end())
    &&& bytes.len() - c.taken@.len() + c.added@.len() <= MAX_LEN
}

/// Whether the change can be taken back from `bytes`: what it added is
/// there, between two characters, and the result stays within the limit.
pub open spec fn fits_undo(bytes: Seq<u8>, c: Change) -> bool {
    &&& c.wf()
    &&& valid_utf8(bytes)
    &&& bytes.len() <= MAX_LEN
    &&& c.spec_added_end() <= bytes.len()
    &&& bytes.subrange(c.start as int, c.spec_added_end()) == c.added@
    &&& on_boundary(bytes, c.start as int)
    &&& on_boundary(bytes, c.spec_added_end())
    &&& bytes.len() - c.added@.len() + c.taken@.len() <= MAX_LEN
}

/// `bytes` after the changes of `s`, made one after the other.
pub open spec fn apply_all(bytes: Seq<u8>, s: Seq<Change>) -> Seq<u8>
    decreases s.len(),
{
    if s.len() == 0 {
        bytes
    } else {
        apply_all(applied(bytes, s[0]), s.drop_first())
    }
}

/// `bytes` with the changes of `s` taken back, the last one first.
pub open spec fn undo_all(bytes: Seq<u8>, s: Seq<Change>) -> Seq<u8>
    decreases s.len(),
{
    if s.len() == 0 {
        bytes
    } else {
        undo_all(undone(bytes, s.last()), s.drop_last())
    }
}

/// Whether the changes of `s` can be made to `bytes` one after the other.
pub open spec fn fits_all(bytes: Seq<u8>, s: Seq<Change>) -> bool
    decreases s.len(),
{
    s.len() > 0 ==> fits(bytes, s[0]) && fits_all(applied(bytes, s[0]), s.drop_first())
}

/// Whether the changes of `s` can be taken back from `bytes`, the last one
/// first.
pub open spec fn undoable(bytes: Seq<u8>, s: Seq<Change>) -> bool
    decreases s.len(),
{
    s.len() > 0 ==> fits_undo(bytes, s.last()) && undoable(undone(bytes, s.last()), s.drop_last())
}

/// Taking back a change that was just made gives the bytes there were.
pub proof fn lemma_undo_apply(bytes: Seq<u8>, c: Change)
    requires
        fits(bytes, c),
    ensures
        fits_undo(applied(bytes, c), c),
        undone(applied(bytes, c), c) == bytes,
{
    let a = applied(bytes, c);
    lemma_splice_valid(bytes, c.start as int, c.spec_taken_end(), c.added@);
    lemma_splice_boundary(bytes, c.start as int, c.spec_taken_end(), c.added@, c.start as int);
    lemma_splice_boundary(
        bytes,
        c.start as int,
        c.spec_taken_end(),
        c.added@,
        c.spec_taken_end(),
    );
    assert(a.subrange(c.start as int, c.spec_added_end()) =~= c.added@);
    assert(undone(a, c) =~= bytes);
}

/// Making again a change that was just taken back gives the bytes there
/// were.
pub proof fn lemma_apply_undo(bytes: Seq<u8>, c: Change)
    requires
        fits_undo(bytes, c),
    ensures
        fits(undone(bytes, c), c),
        applied(undone(bytes, c), c) == bytes,
{
    let a = undone(bytes, c);
    lemma_splice_valid(bytes, c.start as int, c.spec_added_end(), c.taken@);
    lemma_splice_boundary(bytes, c.start as int, c.spec_added_end(), c.taken@, c.start as int);
    lemma_splice_boundary(
        bytes,
        c.start as int,
        c.spec_added_end(),
        c.taken@,
        c.spec_added_end(),
    );
    assert(a.subrange(c.start as int, c.spec_taken_end()) =~= c.taken@);
    assert(applied(a, c) =~= bytes);
}

/// Undo inverts the changes of a moment: after the changes of `s` were
/// made to `bytes`, they can be taken back, and taking them back gives
/// `bytes` again.
pub proof fn lemma_undo_all_apply_all(bytes: Seq<u8>, s: Seq<Change>)
    requires
        fits_all(bytes, s),
    ensures
        undoable(apply_all(bytes, s), s),
        undo_all(apply_all(bytes, s), s) == bytes,
    decreases s.len(),
{
    if s.len() > 0 {
        let t = s.drop_last();
        lemma_apply_all_last(bytes, s);
        lemma_fits_all_last(bytes, s);
        lemma_undo_all_apply_all(bytes, t);
        lemma_undo_apply(apply_all(bytes, t), s.last());
    }
}

/// Redo inverts undo: after the changes of `s` were taken back from
/// `bytes`, they can be made again, and making them gives `bytes` again.
pub proof fn lemma_apply_all_undo_all(bytes: Seq<u8>, s: Seq<Change>)
    requires
        undoable(bytes, s),
    ensures
        fits_all(undo_all(bytes, s), s),
        apply_all(undo_all(bytes, s), s) == bytes,
    decreases s.len(),
{
    if s.len() > 0 {
        let t = s.drop_last();
        let mid = undone(bytes, s.last());
        lemma_apply_all_undo_all(mid, t);
        lemma_apply_undo(bytes, s.last());
        lemma_fits_all_push(undo_all(mid, t), t, s.last());
        assert(t.push(s.last()) == s);
    }
}

/// Undo followed by redo changes nothing: the changes of a moment, made
/// to `bytes`, taken back and made again, give what they gave at first.
pub proof fn lemma_redo_after_undo(bytes: Seq<u8>, s: Seq<Change>)
    requires
        fits_all(bytes, s),
    ensures
        apply_all(undo_all(apply_all(bytes, s), s), s) == apply_all(bytes, s),
{
    lemma_undo_all_apply_all(bytes, s);
}

/// The changes of `s` are its first ones and then its last one.
pub proof fn lemma_apply_all_last(bytes: Seq<u8>, s: Seq<Change>)
    requires
        s.len() > 0,
    ensures
        apply_all(bytes, s) == applied(apply_all(bytes, s.drop_last()), s.last()),
    decreases s.len(),
{
    let t = s.drop_last();
    if s.len() > 1 {
        let r = s.drop_first();
        lemma_apply_all_last(applied(bytes, s[0]), r);
        assert(r.drop_last() =~= t.drop_first());
        assert(t[0] == s[0]);
        assert(r.last() == s.last());
        assert(apply_all(bytes, t) == apply_all(applied(bytes, t[0]), t.drop_first()));
    } else {
        assert(t.len() == 0);
        assert(s.drop_first().len() == 0);
        assert(apply_all(bytes, s) == apply_all(applied(bytes, s[0]), s.drop_first()));
        assert(apply_all(applied(bytes, s[0]), s.drop_first()) == applied(bytes, s[0]));
        assert(apply_all(bytes, t) == bytes);
    }
}

/// Changes that can be made one after the other: the first ones can, and
/// then the last one can.
pub proof fn lemma_fits_all_last(bytes: Seq<u8>, s: Seq<Change>)
    requires
        s.len() > 0,
        fits_all(bytes, s),
    ensures
        fits_all(bytes, s.drop_last()),
        fits(apply_all(bytes, s.drop_last()), s.last()),
    decreases s.len(),
{
    let t = s.drop_last();
    if s.len() > 1 {
        let r = s.drop_first();
        lemma_fits_all_last(applied(bytes, s[0]), r);
        assert(r.drop_last() =~= t.drop_first());
        assert(t[0] == s[0]);
        assert(r.last() == s.last());
        assert(apply_all(bytes, t) == apply_all(applied(bytes, t[0]), t.drop_first()));
    } else {
        assert(t.len() == 0);
        assert(apply_all(bytes, t) == bytes);
    }
}

/// Changes that can be made, followed by one that can be made after them,
/// can all be made.
pub proof fn lemma_fits_all_push(bytes: Seq<u8>, s: Seq<Change>, c: Change)
    requires
        fits_all(bytes, s),
        fits(apply_all(bytes, s), c),
    ensures
        fits_all(bytes, s.push(c)),
        apply_all(bytes, s.push(c)) == applied(apply_all(bytes, s), c),
    decreases s.len(),
{
    let p = s.push(c);
    if s.len() > 0 {
        lemma_fits_all_push(applied(bytes, s[0]), s.drop_first(), c);
        assert(p.drop_first() =~= s.drop_first().push(c));
        assert(p[0] == s[0]);
        assert(apply_all(bytes, s) == apply_all(applied(bytes, s[0]), s.drop_first()));
        assert(apply_all(bytes, p) == apply_all(applied(bytes, p[0]), p.drop_first()));
    } else {
        assert(p.drop_first().len() == 0);
        assert(p[0] == c);
        assert(apply_all(bytes, s) == bytes);
        assert(fits_all(applied(bytes, c), p.drop_first()));
        assert(apply_all(bytes, p) == apply_all(applied(bytes, p[0]), p.drop_first()));
        assert(apply_all(applied(bytes, c), p.drop_first()) == applied(bytes, c));
    }
}

/// Whether what `b` takes lies within what `a` added.
pub open spec fn within_added(a: Change, b: Change) -> bool {
    a.start <= b.start && b.spec_taken_end() <= a.spec_added_end()
}

/// Whether what `a` added lies within what `b` takes.
pub open spec fn covers_added(a: Change, b: Change) -> bool {
    b.start <= a.start && a.spec_added_end() <= b.spec_taken_end()
}

/// Whether `b`, made right after `a`, merges with it.
pub open spec fn coalesces(a: Change, b: Change) -> bool {
    within_added(a, b) || covers_added(a, b)
}

/// Whether `m` is the one change that stands for `a` followed by `b`.
pub open spec fn is_merge_of(m: Change, a: Change, b: Change) -> bool {
    if within_added(a, b) {
        &&& m.start == a.start
        &&& m.taken@ == a.taken@
        &&& m.added@ == spliced(
            a.added@,
            b.start - a.start,
            b.spec_taken_end() - a.start,
            b.added@,
        )
    } else {
        &&& m.start == b.start
        &&& m.taken@ == spliced(
            b.taken@,
            a.start - b.start,
            a.spec_added_end() - b.start,
            a.taken@,
        )
        &&& m.added@ == b.added@
    }
}

/// Coalescing preserves what the changes do: where `b` was made right
/// after `a` and merges with it, making the merged change alone gives the
/// bytes that `a` and then `b` gave.
pub proof fn lemma_merge_applies(bytes: Seq<u8>, a: Change, b: Change, m: Change)
    requires
        fits(bytes, a),
        fits(applied(bytes, a), b),
        coalesces(a, b),
        is_merge_of(m, a, b),
    ensures
        fits(bytes, m),
        applied(bytes, m) == applied(applied(bytes, a), b),
{
    if within_added(a, b) {
        lemma_merge_within(bytes, a, b, m);
    } else {
        lemma_merge_covers(bytes, a, b, m);
    }
}

proof fn lemma_merge_within(bytes: Seq<u8>, a: Change, b: Change, m: Change)
    requires
        fits(bytes, a),
        fits(applied(bytes, a), b),
        within_added(a, b),
        is_merge_of(m, a, b),
    ensures
        fits(bytes, m),
        applied(bytes, m) == applied(applied(bytes, a), b),
{
    let b1 = applied(bytes, a);
    let b2 = applied(b1, b);
    let x = b.start - a.start;
    let y = b.spec_taken_end() - a.start;
    assert(b1.len() == bytes.len() - a.taken@.len() + a.added@.len());
    assert(on_boundary(a.added@, x)) by {
        if x < a.added@.len() {
            assert(b1[b.start as int] == a.added@[x]);
        }
    }
    assert(on_boundary(a.added@, y)) by {
        if y < a.added@.len() {
            assert(b1[b.spec_taken_end()] == a.added@[y]);
        }
    }
    lemma_splice_valid(a.added@, x, y, b.added@);
    assert(m.added@.len() == a.added@.len() - b.taken@.len() + b.added@.len());
    assert(applied(bytes, m).len() == b2.len());
    assert forall|i: int| 0 <= i < b2.len() implies applied(bytes, m)[i] == b2[i] by {
        if i < a.start {
        } else if i < b.start {
            assert(b2[i] == b1[i]);
        } else if i < b.start + b.added@.len() {
        } else if i < a.start + m.added@.len() {
            let j = i - b.added@.len() + b.taken@.len();
            assert(b2[i] == b1[j]);
        } else {
            let j = i - b.added@.len() + b.taken@.len();
            assert(b2[i] == b1[j]);
        }
    }
    assert(applied(bytes, m) =~= b2);
}

proof fn lemma_merge_covers(bytes: Seq<u8>, a: Change, b: Change, m: Change)
    requires
        fits(bytes, a),
        fits(applied(bytes, a), b),
        !within_added(a, b),
        covers_added(a, b),
        is_merge_of(m, a, b),
    ensures
        fits(bytes, m),
        applied(bytes, m) == applied(applied(bytes, a), b),
{
    let b1 = applied(bytes, a);
    let b2 = applied(b1, b);
    let x = a.start - b.start;
    let y = a.spec_added_end() - b.start;
    let d = a.added@.len() - a.taken@.len();
    assert(b1.len() == bytes.len() + d);
    assert(on_boundary(b.taken@, x)) by {
        lemma_splice_boundary(bytes, a.start as int, a.spec_taken_end(), a.added@, a.start as int);
        if x < b.taken@.len() {
            assert(b1[a.start as int] == b.taken@[x]);
        }
    }
    assert(on_boundary(b.taken@, y)) by {
        lemma_splice_boundary(
            bytes,
            a.start as int,
            a.spec_taken_end(),
            a.added@,
            a.spec_taken_end(),
        );
        if y < b.taken@.len() {
            assert(b1[a.spec_added_end()] == b.taken@[y]);
        }
    }
    lemma_splice_valid(b.taken@, x, y, a.taken@);
    let e = m.spec_taken_end();
    assert(m.taken@.len() == b.taken@.len() - d);
    assert(e == b.spec_taken_end() - d);
    assert forall|i: int| 0 <= i < m.taken@.len() implies bytes[m.start + i] == m.taken@[i] by {
        if i < x {
            assert(b.taken@[i] == b1[b.start + i]);
        } else if i < x + a.taken@.len() {
            assert(a.taken@[i - x] == bytes[a.start + (i - x)]);
        } else {
            let j = i + d;
            assert(b.taken@[j] == b1[b.start + j]);
        }
    }
    assert(bytes.subrange(m.start as int, e) =~= m.taken@);
    assert(on_boundary(bytes, m.start as int)) by {
        if b.start < a.start {
            assert(b1[b.start as int] == bytes[b.start as int]);
        }
    }
    assert(on_boundary(bytes, e)) by {
        if e < bytes.len() && b.spec_taken_end() > a.spec_added_end() {
            assert(b1[b.spec_taken_end()] == bytes[e]);
        }
    }
    assert(applied(bytes, m).len() == b2.len());
    assert forall|i: int| 0 <= i < b2.len() implies applied(bytes, m)[i] == b2[i] by {
        if i < b.start {
            assert(b2[i] == b1[i]);
        } else if i < b.start + b.added@.len() {
        } else {
            let j = i - b.added@.len() + b.taken@.len();
            assert(b2[i] == b1[j]);
        }
    }
    assert(applied(bytes, m) =~= b2);
}

/// Taking back the changes of `s` ends with taking back its first one.
pub proof fn lemma_undo_all_first(bytes: Seq<u8>, s: Seq<Change>)
    requires
        s.len() > 0,
    ensures
        undo_all(bytes, s) == undone(undo_all(bytes, s.drop_first()), s[0]),
    decreases s.len(),
{
    let r = s.drop_first();
    if s.len() > 1 {
        let t = s.drop_last();
        lemma_undo_all_first(undone(bytes, s.last()), t);
        assert(t.drop_first() =~= r.drop_last());
        assert(t[0] == s[0]);
        assert(r.last() == s.last());
        assert(undo_all(bytes, r) == undo_all(undone(bytes, r.last()), r.drop_last()));
    } else {
        assert(r.len() == 0);
        assert(s.drop_last().len() == 0);
        assert(undo_all(bytes, r) == bytes);
        assert(undo_all(bytes, s) == undo_all(undone(bytes, s.last()), s.drop_last()));
        assert(undo_all(undone(bytes, s.last()), s.drop_last()) == undone(bytes, s.last()));
    }
}

/// Where offset `p` goes when the bytes of `start..old_end` become those
/// of `start..new_end`: it stays at or before `start`, follows the text
/// from `old_end` on, and in between it stays unless the new end lies
/// before it.
pub open spec fn spec_shift_pos(p: int, start: int, old_end: int, new_end: int) -> int {
    if p >= old_end {
        p - old_end + new_end
    } else if p > start && p > new_end {
        new_end
    } else {
        p
    }
}

/// Where offset `p` goes when the bytes of `start..old_end` become those
/// of `start..new_end`.
pub fn shift_pos(p: usize, start: usize, old_end: usize, new_end: usize) -> (r: usize)
    requires
        start <= old_end,
        start <= new_end,
        p - old_end + new_end <= usize::MAX,
    ensures
        r == spec_shift_pos(p as int, start as int, old_end as int, new_end as int),
{
    if p >= old_end {
        p - old_end + new_end
    } else if p > start && p > new_end {
        new_end
    } else {
        p
    }
}

/// Where the carets stand after the changes of `s` were taken back: one
/// at the end of what each change had taken, moved by the taking back of
/// the changes before it.
pub open spec fn undo_carets(s: Seq<Change>) -> Seq<int>
    decreases s.len(),
{
    if s.len() == 0 {
        Seq::empty()
    } else {
        seq![s[0].spec_taken_end()] + undo_carets(s.drop_first()).map_values(
            |p: int| spec_shift_pos(p, s[0].start as int, s[0].spec_added_end(), s[0].spec_taken_end()),
        )
    }
}

/// Where the carets stand after the changes of `s` were made: one at the
/// end of what each change added, moved by the changes after it.
pub open spec fn redo_carets(s: Seq<Change>) -> Seq<int>
    decreases s.len(),
{
    if s.len() == 0 {
        Seq::empty()
    } else {
        redo_carets(s.drop_last()).map_values(
            |p: int|
                spec_shift_pos(
                    p,
                    s.last().start as int,
                    s.last().spec_taken_end(),
                    s.last().spec_added_end(),
                ),
        ).push(s.last().spec_added_end())
    }
}

/// `v` with the range `x..y` replaced by `w`.
pub fn splice_vec(v: &Vec<u8>, x: usize, y: usize, w: &Vec<u8>) -> (r: Vec<u8>)
    requires
        x <= y <= v@.len(),
    ensures
        r@ == spliced(v@, x as int, y as int, w@),
{
    let mut out: Vec<u8> = Vec::new();
    let mut i: usize = 0;
    while i < x
        invariant
            i <= x <= v@.len(),
            out@ == v@.subrange(0, i as int),
        decreases x - i,
    {
        out.push(v[i]);
        i += 1;
    }
    let mut j: usize = 0;
    while j < w.len()
        invariant
            j <= w@.len(),
            out@ == v@.subrange(0, x as int) + w@.subrange(0, j as int),
        decreases w.len() - j,
    {
        out.push(w[j]);
        j += 1;
    }
    let mut k: usize = y;
    while k < v.len()
        invariant
            y <= k <= v@.len(),
            out@ == v@.subrange(0, x as int) + w@ + v@.subrange(y as int, k as int),
        decreases v.len() - k,
    {
        out.push(v[k]);
        k += 1;
    }
    proof {
        assert(out@ =~= spliced(v@, x as int, y as int, w@));
    }
    out
}

impl Text {
    /// Makes a change: what it takes leaves, what it adds comes, and the
    /// tags move with the text.
    pub fn apply_change(&mut self, c: &Change)
        requires
            old(self).wf(),
            fits(old(self).bytes(), *c),
        ensures
            final(self).bytes() == applied(old(self).bytes(), *c),
            final(self).tags@ == crate::tags::transformed(
                old(self).tags@,
                c.start as int,
                c.spec_taken_end(),
                c.spec_added_end(),
            ),
            final(self).marker == old(self).marker,
            final(self).ghosts == old(self).ghosts,
            final(self).wf(),
            fits_undo(final(self).bytes(), *c),
    {
        proof {
            lemma_undo_apply(self.bytes(), *c);
        }
        let end = c.taken_end();
        self.replace_range(c.start, end, c.added.as_slice());
    }

    /// Takes a change back: what it added leaves, what it took comes
    /// again, and the tags move with the text.
    pub fn undo_change(&mut self, c: &Change)
        requires
            old(self).wf(),
            fits_undo(old(self).bytes(), *c),
        ensures
            final(self).bytes() == undone(old(self).bytes(), *c),
            final(self).tags@ == crate::tags::transformed(
                old(self).tags@,
                c.start as int,
                c.spec_added_end(),
                c.spec_taken_end(),
            ),
            final(self).marker == old(self).marker,
            final(self).ghosts == old(self).ghosts,
            final(self).wf(),
            fits(final(self).bytes(), *c),
    {
        proof {
            lemma_apply_undo(self.bytes(), *c);
        }
        let end = c.added_end();
        self.replace_range(c.start, end, c.taken.as_slice());
    }
}

/// The changes of an atomic unit of undo, in the order in which they were
/// made.
#[derive(Clone, Debug)]
pub struct Moment {
    pub changes: Vec<Change>,
}

/// The history of a text: its changes in the order in which they were
/// made, grouped into moments, of which the first `applied` are in the
/// text and the others can be made again.
#[derive(Clone, Debug)]
pub struct History {
    /// The changes of all moments, one moment after the other.
    pub changes: Vec<Change>,
    /// For each moment the index of its first change.
    pub bounds: Vec<usize>,
    /// The number of moments that are in the text.
    pub applied: usize,
}

impl History {
    /// The number of changes that are in the text.
    pub open spec fn applied_changes(&self) -> int {
        if self.applied < self.bounds@.len() {
            self.bounds@[self.applied as int] as int
        } else {
            self.changes@.len() as int
        }
    }

    /// Where moment `k` ends among the changes.
    pub open spec fn moment_end(&self, k: int) -> int {
        if k + 1 < self.bounds@.len() {
            self.bounds@[k + 1] as int
        } else {
            self.changes@.len() as int
        }
    }

    /// The changes of moment `k`.
    pub open spec fn moment_changes(&self, k: int) -> Seq<Change> {
        self.changes@.subrange(self.bounds@[k] as int, self.moment_end(k))
    }

    /// Whether the moments divide the changes in order.
    pub open spec fn wf(&self) -> bool {
        &&& self.applied <= self.bounds@.len()
        &&& forall|i: int, j: int|
            0 <= i <= j < self.bounds@.len() ==> self.bounds@[i] <= self.bounds@[j]
        &&& forall|i: int| 0 <= i < self.bounds@.len() ==> self.bounds@[i] <= self.changes@.len()
        &&& self.bounds@.len() == 0 ==> self.changes@.len() == 0
        &&& self.bounds@.len() > 0 ==> self.bounds@[0] == 0
    }

    /// Whether this is the history of a text that now holds `bytes`: the
    /// changes in the text can be taken back from it, last first, and the
    /// others can be made to it, in order.
    pub open spec fn tracks(&self, bytes: Seq<u8>) -> bool {
        &&& self.wf()
        &&& undoable(bytes, self.changes@.take(self.applied_changes()))
        &&& fits_all(bytes, self.changes@.skip(self.applied_changes()))
    }

    /// A history without moments.
    pub fn new() -> (r: Self)
        ensures
            r.changes@.len() == 0,
            r.bounds@.len() == 0,
            r.applied == 0,
            r.wf(),
    {
        History { changes: Vec::new(), bounds: Vec::new(), applied: 0 }
    }

    /// The number of moments, those that can be made again included.
    pub fn len_moments(&self) -> (r: usize)
        ensures
            r == self.bounds@.len(),
    {
        self.bounds.len()
    }

    /// The number of changes that are in the text.
    pub fn len_applied(&self) -> (r: usize)
        requires
            self.wf(),
        ensures
            r == self.applied_changes(),
    {
        if self.applied < self.bounds.len() {
            self.bounds[self.applied]
        } else {
            self.changes.len()
        }
    }

    /// A copy of moment `k`.
    pub fn moment(&self, k: usize) -> (r: Moment)
        requires
            self.wf(),
            k < self.bounds@.len(),
        ensures
            r.changes@.len() == self.moment_changes(k as int).len(),
            forall|i: int|
                0 <= i < r.changes@.len() ==> (#[trigger] r.changes@[i]).start
                    == self.moment_changes(k as int)[i].start && r.changes@[i].taken@
                    == self.moment_changes(k as int)[i].taken@ && r.changes@[i].added@
                    == self.moment_changes(k as int)[i].added@,
    {
        let lo = self.bounds[k];
        let nb = self.bounds.len();
        let hi = if k + 1 < nb {
            self.bounds[k + 1]
        } else {
            self.changes.len()
        };
        let mut out: Vec<Change> = Vec::new();
        let mut i: usize = lo;
        while i < hi
            invariant
                lo <= i <= hi <= self.changes@.len(),
                out@.len() == i - lo,
                forall|j: int|
                    0 <= j < out@.len() ==> (#[trigger] out@[j]).start == self.changes@[lo + j].start
                        && out@[j].taken@ == self.changes@[lo + j].taken@ && out@[j].added@
                        == self.changes@[lo + j].added@,
            decreases hi - i,
        {
            let c = &self.changes[i];
            out.push(
                Change { start: c.start, taken: copy_bytes(&c.taken), added: copy_bytes(&c.added) },
            );
            i += 1;
        }
        Moment { changes: out }
    }

    /// Drops the moments that could be made again.
    fn forget_redo(&mut self)
        requires
            old(self).wf(),
        ensures
            final(self).wf(),
            final(self).applied == old(self).applied,
            final(self).applied == final(self).bounds@.len(),
            final(self).bounds@ == old(self).bounds@.take(old(self).applied as int),
            final(self).changes@ == old(self).changes@.take(old(self).applied_changes()),
            final(self).applied_changes() == old(self).applied_changes(),
    {
        if self.applied < self.bounds.len() {
            let ac = self.bounds[self.applied];
            self.changes.truncate(ac);
            self.bounds.truncate(self.applied);
        } else {
            assert(self.bounds@.take(self.applied as int) == self.bounds@);
            assert(self.changes@.take(self.changes@.len() as int) == self.changes@);
        }
    }

    /// Begins a new moment. The moments that could be made again are
    /// dropped.
    pub fn new_moment(&mut self)
        requires
            old(self).wf(),
        ensures
            final(self).wf(),
            final(self).applied == old(self).applied + 1,
            final(self).bounds@ == old(self).bounds@.take(old(self).applied as int).push(
                old(self).applied_changes() as usize,
            ),
            final(self).changes@ == old(self).changes@.take(old(self).applied_changes()),
            final(self).applied_changes() == old(self).applied_changes(),
            forall|bytes: Seq<u8>| old(self).tracks(bytes) ==> #[trigger] final(self).tracks(bytes),
    {
        self.forget_redo();
        let n = self.changes.len();
        self.bounds.push(n);
        self.applied = self.bounds.len();
        proof {
            let ac = old(self).applied_changes();
            assert(self.changes@.take(ac) == self.changes@);
            assert(self.changes@.skip(ac).len() == 0);
        }
    }

    /// Makes a change to the text and records it in the current moment,
    /// which is begun if no moment is in the text. The moments that could
    /// be made again are dropped. Where `assoc` names the latest change of
    /// the moment and the new change merges with it, the two become one.
    /// Returns the index in the moment of the change that now holds the
    /// new one, and by how much the number of changes grew.
    pub fn add_change(&mut self, text: &mut Text, change: Change, assoc: Option<usize>) -> (r: (
        usize,
        isize,
    ))
        requires
            old(self).tracks(old(text).bytes()),
            old(text).wf(),
            fits(old(text).bytes(), change),
        ensures
            final(text).bytes() == applied(old(text).bytes(), change),
            final(text).tags@ == crate::tags::transformed(
                old(text).tags@,
                change.start as int,
                change.spec_taken_end(),
                change.spec_added_end(),
            ),
            final(text).wf(),
            final(text).marker == old(text).marker,
            final(text).ghosts == old(text).ghosts,
            final(self).tracks(final(text).bytes()),
            final(self).applied == final(self).bounds@.len(),
            final(self).applied == if old(self).applied == 0 {
                1
            } else {
                old(self).applied as int
            },
            old(self).merges(change, assoc) ==> {
                &&& r.1 == 0
                &&& r.0 == assoc.unwrap()
                &&& final(self).changes@.len() == old(self).applied_changes()
                &&& final(self).changes@.drop_last() == old(self).changes@.take(
                    old(self).applied_changes() - 1,
                )
                &&& is_merge_of(
                    final(self).changes@.last(),
                    old(self).changes@[old(self).applied_changes() - 1],
                    change,
                )
            },
            !old(self).merges(change, assoc) ==> {
                &&& r.1 == 1
                &&& final(self).changes@ == old(self).changes@.take(
                    old(self).applied_changes(),
                ).push(change)
                &&& r.0 == old(self).applied_changes() - final(self).bounds@.last()
            },
    {
        let ghost bytes = text.bytes();
        let ghost ac = self.applied_changes();
        let ghost old_changes = self.changes@;
        self.forget_redo();
        if self.applied == 0 {
            self.bounds.push(0);
            self.applied = 1;
        }
        proof {
            assert(self.changes@.take(ac) == self.changes@);
        }
        let lo = self.bounds[self.applied - 1];
        let n = self.changes.len();
        let merge = match assoc {
            Some(i) => n > lo && i == n - 1 - lo && does_coalesce(&self.changes[n - 1], &change),
            None => false,
        };
        assert(merge == old(self).merges(change, assoc));
        proof {
            lemma_undo_apply(bytes, change);
        }
        text.apply_change(&change);
        if merge {
            let a = self.changes.pop().unwrap();
            let m = merge_changes(&a, &change);
            proof {
                let b0 = undone(bytes, a);
                assert(old_changes.take(ac).last() == a);
                assert(old_changes.take(ac).drop_last() == old_changes.take(ac - 1));
                lemma_apply_undo(bytes, a);
                lemma_merge_applies(b0, a, change, m);
                lemma_undo_apply(b0, m);
                assert(self.changes@ == old_changes.take(ac - 1));
            }
            self.changes.push(m);
            proof {
                assert(self.changes@.take(ac) == self.changes@);
                assert(self.changes@.drop_last() == old_changes.take(ac - 1));
                assert(self.changes@.last() == m);
                assert(self.changes@.skip(ac).len() == 0);
                assert(self.applied_changes() == ac);
                assert(undoable(text.bytes(), self.changes@));
            }
            (n - 1 - lo, 0)
        } else {
            self.changes.push(change);
            proof {
                assert(self.changes@.take(ac + 1) == self.changes@);
                assert(self.changes@.drop_last() == old_changes.take(ac));
                assert(self.changes@.last() == change);
                assert(self.changes@.skip(ac + 1).len() == 0);
                assert(self.applied_changes() == ac + 1);
                assert(undoable(text.bytes(), self.changes@));
            }
            (n - lo, 1)
        }
    }

    /// Whether `change`, made now by a cursor whose latest change has the
    /// index `assoc` in the current moment, merges with that change: it is
    /// the latest change in the text, and the two coalesce.
    pub open spec fn merges(&self, change: Change, assoc: Option<usize>) -> bool {
        let ac = self.applied_changes();
        &&& assoc is Some
        &&& self.applied > 0
        &&& ac > self.bounds@[self.applied - 1]
        &&& assoc.unwrap() == ac - 1 - self.bounds@[self.applied - 1]
        &&& coalesces(self.changes@[ac - 1], change)
    }

    /// Takes back the changes of the latest moment in the text, the last
    /// change first. Returns where the carets then stand, one for each
    /// change, or `None` where no moment is in the text.
    pub fn undo(&mut self, text: &mut Text) -> (r: Option<Vec<usize>>)
        requires
            old(self).tracks(old(text).bytes()),
            old(text).wf(),
        ensures
            r is None <==> old(self).applied == 0,
            r is None ==> *final(self) == *old(self) && final(text).bytes() == old(text).bytes(),
            final(self).changes == old(self).changes,
            final(self).bounds == old(self).bounds,
            final(text).wf(),
            final(text).marker == old(text).marker,
            final(text).ghosts == old(text).ghosts,
            final(self).tracks(final(text).bytes()),
            r is Some ==> {
                let m = old(self).moment_changes(old(self).applied - 1);
                &&& final(self).applied == old(self).applied - 1
                &&& final(text).bytes() == undo_all(old(text).bytes(), m)
                &&& r.unwrap()@.map_values(|p: usize| p as int) == undo_carets(m)
            },
    {
        if self.applied == 0 {
            return None;
        }
        let hi = self.len_applied();
        let lo = self.bounds[self.applied - 1];
        let ghost bytes = text.bytes();
        let ghost all = self.changes@;
        assert(lo <= hi) by {
            if self.applied < self.bounds@.len() {
                assert(self.bounds@[self.applied - 1] <= self.bounds@[self.applied as int]);
            }
        }
        let mut carets: Vec<usize> = Vec::new();
        let mut i: usize = hi;
        proof {
            assert(all.subrange(hi as int, hi as int).len() == 0);
        }
        while i > lo
            invariant
                lo <= i <= hi <= all.len(),
                all == self.changes@,
                text.wf(),
                text.marker == old(text).marker,
                text.ghosts == old(text).ghosts,
                undoable(text.bytes(), all.take(i as int)),
                fits_all(text.bytes(), all.skip(i as int)),
                text.bytes() == undo_all(bytes, all.subrange(i as int, hi as int)),
                carets@.map_values(|p: usize| p as int) == undo_carets(
                    all.subrange(i as int, hi as int),
                ),
                forall|j: int| 0 <= j < carets@.len() ==> carets@[j] <= text.bytes().len(),
            decreases i,
        {
            let ghost before = text.bytes();
            let ghost prev = carets@;
            i -= 1;
            let c = &self.changes[i];
            proof {
                assert(all.take(i + 1).last() == *c);
                assert(all.take(i + 1).drop_last() == all.take(i as int));
                lemma_apply_undo(before, *c);
            }
            text.undo_change(c);
            let start = c.start;
            let old_end = c.added_end();
            let new_end = c.taken_end();
            let mut j: usize = 0;
            while j < carets.len()
                invariant
                    j <= carets@.len() == prev.len(),
                    start <= old_end <= before.len() <= MAX_LEN,
                    start <= new_end <= MAX_LEN,
                    text.bytes().len() == before.len() - old_end + new_end,
                    forall|k: int| j <= k < prev.len() ==> carets@[k] == prev[k],
                    forall|k: int| 0 <= k < prev.len() ==> prev[k] <= before.len(),
                    forall|k: int|
                        0 <= k < j ==> carets@[k] == spec_shift_pos(
                            prev[k] as int,
                            start as int,
                            old_end as int,
                            new_end as int,
                        ),
                decreases carets.len() - j,
            {
                let p = carets[j];
                assert(prev[j as int] <= before.len());
                carets.set(j, shift_pos(p, start, old_end, new_end));
                j += 1;
            }
            carets.insert(0, new_end);
            proof {
                let sub = all.subrange(i as int, hi as int);
                assert(sub.drop_first() == all.subrange(i + 1, hi as int));
                assert(sub[0] == *c);
                lemma_undo_all_first(bytes, sub);
                assert(all.skip(i as int)[0] == *c);
                assert(all.skip(i as int).drop_first() == all.skip(i + 1));
                assert(carets@.map_values(|p: usize| p as int) =~= undo_carets(sub));
            }
        }
        self.applied = self.applied - 1;
        proof {
            assert(all.subrange(lo as int, hi as int) == old(self).moment_changes(
                old(self).applied - 1,
            ));
        }
        Some(carets)
    }

    /// Makes again the changes of the first moment that was taken back,
    /// in their order. Returns where the carets then stand, one for each
    /// change, or `None` where no moment was taken back.
    pub fn redo(&mut self, text: &mut Text) -> (r: Option<Vec<usize>>)
        requires
            old(self).tracks(old(text).bytes()),
            old(text).wf(),
        ensures
            r is None <==> old(self).applied == old(self).bounds@.len(),
            r is None ==> *final(self) == *old(self) && final(text).bytes() == old(text).bytes(),
            final(self).changes == old(self).changes,
            final(self).bounds == old(self).bounds,
            final(text).wf(),
            final(text).marker == old(text).marker,
            final(text).ghosts == old(text).ghosts,
            final(self).tracks(final(text).bytes()),
            r is Some ==> {
                let m = old(self).moment_changes(old(self).applied as int);
                &&& final(self).applied == old(self).applied + 1
                &&& final(text).bytes() == apply_all(old(text).bytes(), m)
                &&& r.unwrap()@.map_values(|p: usize| p as int) == redo_carets(m)
            },
    {
        if self.applied >= self.bounds.len() {
            return None;
        }
        let lo = self.bounds[self.applied];
        let hi = if self.applied + 1 < self.bounds.len() {
            self.bounds[self.applied + 1]
        } else {
            self.changes.len()
        };
        let ghost bytes = text.bytes();
        let ghost all = self.changes@;
        assert(lo <= hi) by {
            if self.applied + 1 < self.bounds@.len() {
                assert(self.bounds@[self.applied as int] <= self.bounds@[self.applied + 1]);
            }
        }
        let mut carets: Vec<usize> = Vec::new();
        let mut i: usize = lo;
        proof {
            assert(all.subrange(lo as int, lo as int).len() == 0);
        }
        while i < hi
            invariant
                lo <= i <= hi <= all.len(),
                all == self.changes@,
                text.wf(),
                text.marker == old(text).marker,
                text.ghosts == old(text).ghosts,
                undoable(text.bytes(), all.take(i as int)),
                fits_all(text.bytes(), all.skip(i as int)),
                text.bytes() == apply_all(bytes, all.subrange(lo as int, i as int)),
                carets@.map_values(|p: usize| p as int) == redo_carets(
                    all.subrange(lo as int, i as int),
                ),
                forall|j: int| 0 <= j < carets@.len() ==> carets@[j] <= text.bytes().len(),
            decreases hi - i,
        {
            let ghost before = text.bytes();
            let ghost prev = carets@;
            let c = &self.changes[i];
            proof {
                assert(all.skip(i as int)[0] == *c);
                assert(all.skip(i as int).drop_first() == all.skip(i + 1));
                lemma_undo_apply(before, *c);
            }
            text.apply_change(c);
            let start = c.start;
            let old_end = c.taken_end();
            let new_end = c.added_end();
            let mut j: usize = 0;
            while j < carets.len()
                invariant
                    j <= carets@.len() == prev.len(),
                    start <= old_end <= before.len() <= MAX_LEN,
                    start <= new_end <= MAX_LEN,
                    text.bytes().len() == before.len() - old_end + new_end,
                    forall|k: int| j <= k < prev.len() ==> carets@[k] == prev[k],
                    forall|k: int| 0 <= k < prev.len() ==> prev[k] <= before.len(),
                    forall|k: int|
                        0 <= k < j ==> carets@[k] == spec_shift_pos(
                            prev[k] as int,
                            start as int,
                            old_end as int,
                            new_end as int,
                        ),
                decreases carets.len() - j,
            {
                let p = carets[j];
                assert(prev[j as int] <= before.len());
                carets.set(j, shift_pos(p, start, old_end, new_end));
                j += 1;
            }
            carets.push(new_end);
            i += 1;
            proof {
                let sub = all.subrange(lo as int, i as int);
                assert(sub.drop_last() == all.subrange(lo as int, i - 1));
                assert(sub.last() == *c);
                lemma_apply_all_last(bytes, sub);
                assert(all.take(i as int).last() == *c);
                assert(all.take(i as int).drop_last() == all.take(i - 1));
                assert(carets@.map_values(|p: usize| p as int) =~= redo_carets(sub));
            }
        }
        self.applied = self.applied + 1;
        proof {
            assert(all.subrange(lo as int, hi as int) == old(self).moment_changes(
                old(self).applied as int,
            ));
        }
        Some(carets)
    }
}

/// A copy of the bytes of `v`.
pub fn copy_bytes(v: &Vec<u8>) -> (r: Vec<u8>)
    ensures
        r@ == v@,
{
    let mut out: Vec<u8> = Vec::new();
    let mut i: usize = 0;
    while i < v.len()
        invariant
            i <= v@.len(),
            out@ == v@.subrange(0, i as int),
        decreases v.len() - i,
    {
        out.push(v[i]);
        i += 1;
    }
    proof {
        assert(v@.subrange(0, v@.len() as int) == v@);
    }
    out
}

/// Whether `b`, made right after `a`, merges with it: what `b` takes lies
/// within what `a` added, or holds all of it.
pub fn does_coalesce(a: &Change, b: &Change) -> (r: bool)
    requires
        a.wf(),
        b.wf(),
    ensures
        r == coalesces(*a, *b),
{
    let a_end = a.added_end();
    let b_end = b.taken_end();
    (a.start <= b.start && b_end <= a_end) || (b.start <= a.start && a_end <= b_end)
}

/// The one change that stands for `a` followed by `b`, which merges with
/// it.
pub fn merge_changes(a: &Change, b: &Change) -> (m: Change)
    requires
        a.wf(),
        b.wf(),
        coalesces(*a, *b),
    ensures
        is_merge_of(m, *a, *b),
{
    let a_end = a.added_end();
    let b_end = b.taken_end();
    if a.start <= b.start && b_end <= a_end {
        Change {
            start: a.start,
            taken: copy_bytes(&a.taken),
            added: splice_vec(&a.added, b.start - a.start, b_end - a.start, &b.added),
        }
    } else {
        Change {
            start: b.start,
            taken: splice_vec(&b.taken, a.start - b.start, a_end - b.start, &a.taken),
            added: copy_bytes(&b.added),
        }
    }
}

} // verus!
