//! The tags of a text: events attached to byte offsets, kept in the order
//! of their offsets and, at one offset, in the order in which they came.

use vstd::prelude::*;

verus! {

/// The name of a visual style.
#[derive(Clone, Copy, Debug, PartialEq, Eq, Structural)]
pub struct FormId {
    pub id: u16,
}

/// The name of a handler for hovering and clicking.
#[derive(Clone, Copy, Debug, PartialEq, Eq, Structural)]
pub struct ToggleId {
    pub id: usize,
}

/// The name of a ghost text held by the tags.
#[derive(Clone, Copy, Debug, PartialEq, Eq, Structural)]
pub struct GhostId {
    pub id: usize,
}

/// The owner of a group of tags, by which they are removed together.
#[derive(Clone, Copy, Debug, PartialEq, Eq, Structural)]
pub struct Marker {
    pub id: usize,
}

/// An event attached to an offset of a text.
#[derive(Clone, Copy, Debug, PartialEq, Eq, Structural)]
pub enum Tag {
    /// Stacks a form, which stays until it is popped.
    PushForm(FormId),
    /// Takes the latest occurrence of a form off the stack.
    PopForm(FormId),
    /// Where the main cursor is.
    MainCursor,
    /// Where an extra cursor is.
    ExtraCursor,
    StartAlignLeft,
    EndAlignLeft,
    StartAlignCenter,
    EndAlignCenter,
    StartAlignRight,
    EndAlignRight,
    /// Text that is shown at this offset without being part of the buffer.
    GhostText(GhostId),
    /// From here on characters are left out of what is shown.
    ConcealStart,
    /// Characters are shown again.
    ConcealEnd,
    ToggleStart(ToggleId),
    ToggleEnd(ToggleId),
}

impl Tag {
    /// The tag that ends what this one begins, if it begins anything.
    pub open spec fn spec_inverse(self) -> Option<Tag> {
        match self {
            Tag::PushForm(id) => Some(Tag::PopForm(id)),
            Tag::StartAlignLeft => Some(Tag::EndAlignLeft),
            Tag::StartAlignCenter => Some(Tag::EndAlignCenter),
            Tag::StartAlignRight => Some(Tag::EndAlignRight),
            Tag::ConcealStart => Some(Tag::ConcealEnd),
            Tag::ToggleStart(id) => Some(Tag::ToggleEnd(id)),
            _ => None,
        }
    }

    /// The tag that ends what this one begins, if it begins anything.
    pub fn inverse(&self) -> (r: Option<Tag>)
        ensures
            r == self.spec_inverse(),
    {
        match self {
            Tag::PushForm(id) => Some(Tag::PopForm(*id)),
            Tag::StartAlignLeft => Some(Tag::EndAlignLeft),
            Tag::StartAlignCenter => Some(Tag::EndAlignCenter),
            Tag::StartAlignRight => Some(Tag::EndAlignRight),
            Tag::ConcealStart => Some(Tag::ConcealEnd),
            Tag::ToggleStart(id) => Some(Tag::ToggleEnd(*id)),
            _ => None,
        }
    }
}

/// A tag with its offset and its owner.
#[derive(Clone, Copy, Debug, PartialEq, Eq, Structural)]
pub struct TagEntry {
    pub offset: usize,
    pub tag: Tag,
    pub marker: Marker,
}

/// Whether the offsets of `s` never decrease.
pub open spec fn sorted(s: Seq<TagEntry>) -> bool {
    forall|i: int, j: int| 0 <= i <= j < s.len() ==> s[i].offset <= s[j].offset
}

/// The number of entries of `s` that lie before `offset`; in sorted tags,
/// the index of the first entry at or after it.
pub open spec fn count_before(s: Seq<TagEntry>, offset: usize) -> int
    decreases s.len(),
{
    if s.len() == 0 {
        0
    } else {
        count_before(s.drop_last(), offset) + if s.last().offset < offset {
            1int
        } else {
            0int
        }
    }
}

/// The number of entries of `s` that lie at or before `offset`; in sorted
/// tags, the index just after the last of them.
pub open spec fn count_upto(s: Seq<TagEntry>, offset: usize) -> int
    decreases s.len(),
{
    if s.len() == 0 {
        0
    } else {
        count_upto(s.drop_last(), offset) + if s.last().offset <= offset {
            1int
        } else {
            0int
        }
    }
}

/// `s` without the entries at `offset` that one of `markers` owns.
pub open spec fn removed_on(s: Seq<TagEntry>, offset: usize, markers: Seq<Marker>) -> Seq<
    TagEntry,
>
    decreases s.len(),
{
    if s.len() == 0 {
        s
    } else {
        let rest = removed_on(s.drop_last(), offset, markers);
        if s.last().offset == offset && markers.contains(s.last().marker) {
            rest
        } else {
            rest.push(s.last())
        }
    }
}

/// Where an offset goes when the range `start..end` becomes
/// `start..new_end`: nowhere if it lies strictly inside the range, along
/// with the text that follows if it lies at or after `end` and after
/// `start`, and otherwise it stays.
pub open spec fn moved_offset(o: int, start: int, end: int, new_end: int) -> Option<int> {
    if start < o < end {
        None
    } else if o >= end && o > start {
        Some(o - end + new_end)
    } else {
        Some(o)
    }
}

/// `s` after the range `start..end` became `start..new_end`: each entry
/// moved as `moved_offset` says, in the order they had.
pub open spec fn transformed(s: Seq<TagEntry>, start: int, end: int, new_end: int) -> Seq<
    TagEntry,
>
    decreases s.len(),
{
    if s.len() == 0 {
        s
    } else {
        let rest = transformed(s.drop_last(), start, end, new_end);
        match moved_offset(s.last().offset as int, start, end, new_end) {
            None => rest,
            Some(o) => rest.push(
                TagEntry { offset: o as usize, tag: s.last().tag, marker: s.last().marker },
            ),
        }
    }
}

/// In sorted tags the entries before the count lie before the offset and
/// the others do not.
pub proof fn lemma_count_before(s: Seq<TagEntry>, offset: usize)
    requires
        sorted(s),
    ensures
        0 <= count_before(s, offset) <= s.len(),
        forall|i: int| 0 <= i < count_before(s, offset) ==> (#[trigger] s[i]).offset < offset,
        forall|i: int| count_before(s, offset) <= i < s.len() ==> (#[trigger] s[i]).offset >= offset,
    decreases s.len(),
{
    if s.len() > 0 {
        let t = s.drop_last();
        assert(sorted(t));
        lemma_count_before(t, offset);
        assert forall|i: int| 0 <= i < s.len() - 1 implies #[trigger] s[i] == t[i] by {}
        if s.last().offset < offset {
            assert forall|i: int| 0 <= i < s.len() - 1 implies (#[trigger] t[i]).offset < offset by {
                assert(s[i].offset <= s[s.len() - 1].offset);
            }
            assert(count_before(t, offset) == t.len()) by {
                if count_before(t, offset) < t.len() {
                    assert(t[count_before(t, offset)].offset >= offset);
                }
            }
        }
    }
}

/// In sorted tags the entries before the count lie at or before the offset
/// and the others lie after it.
pub proof fn lemma_count_upto(s: Seq<TagEntry>, offset: usize)
    requires
        sorted(s),
    ensures
        0 <= count_upto(s, offset) <= s.len(),
        forall|i: int| 0 <= i < count_upto(s, offset) ==> (#[trigger] s[i]).offset <= offset,
        forall|i: int| count_upto(s, offset) <= i < s.len() ==> (#[trigger] s[i]).offset > offset,
    decreases s.len(),
{
    if s.len() > 0 {
        let t = s.drop_last();
        assert(sorted(t));
        lemma_count_upto(t, offset);
        assert forall|i: int| 0 <= i < s.len() - 1 implies #[trigger] s[i] == t[i] by {}
        if s.last().offset <= offset {
            assert forall|i: int| 0 <= i < s.len() - 1 implies (#[trigger] t[i]).offset
                <= offset by {
                assert(s[i].offset <= s[s.len() - 1].offset);
            }
            assert(count_upto(t, offset) == t.len()) by {
                if count_upto(t, offset) < t.len() {
                    assert(t[count_upto(t, offset)].offset > offset);
                }
            }
        }
    }
}

/// Every entry that is left after a removal was there before, and the
/// order of the offsets is kept.
pub proof fn lemma_removed_on(s: Seq<TagEntry>, offset: usize, markers: Seq<Marker>)
    ensures
        removed_on(s, offset, markers).len() <= s.len(),
        forall|i: int|
            0 <= i < removed_on(s, offset, markers).len() ==> s.contains(
                #[trigger] removed_on(s, offset, markers)[i],
            ),
        forall|i: int|
            0 <= i < removed_on(s, offset, markers).len() ==> !((#[trigger] removed_on(
                s,
                offset,
                markers,
            )[i]).offset == offset && markers.contains(removed_on(s, offset, markers)[i].marker)),
        sorted(s) ==> sorted(removed_on(s, offset, markers)),
    decreases s.len(),
{
    if s.len() > 0 {
        let t = s.drop_last();
        lemma_removed_on(t, offset, markers);
        let r = removed_on(s, offset, markers);
        let rt = removed_on(t, offset, markers);
        assert forall|i: int| 0 <= i < r.len() implies s.contains(#[trigger] r[i]) by {
            if i < rt.len() {
                let k = choose|k: int| 0 <= k < t.len() && t[k] == rt[i];
                assert(s[k] == rt[i]);
            } else {
                assert(s[s.len() - 1] == r[i]);
            }
        }
        if sorted(s) {
            assert(sorted(t));
            assert forall|i: int, j: int| 0 <= i <= j < r.len() implies r[i].offset
                <= r[j].offset by {
                if j >= rt.len() && i < rt.len() {
                    let k = choose|k: int| 0 <= k < t.len() && t[k] == rt[i];
                    assert(s[k].offset <= s[s.len() - 1].offset);
                }
            }
        }
    }
}

/// After a transformation every entry lies at or before `start` or at or
/// after `new_end`, is the image of an entry that was there, and the order
/// of the offsets is kept.
pub proof fn lemma_transformed(s: Seq<TagEntry>, start: int, end: int, new_end: int)
    requires
        0 <= start <= end,
        start <= new_end,
        forall|i: int| 0 <= i < s.len() ==> (#[trigger] s[i]).offset - end + new_end <= usize::MAX,
    ensures
        transformed(s, start, end, new_end).len() <= s.len(),
        forall|i: int|
            0 <= i < transformed(s, start, end, new_end).len() ==> exists|k: int|
                0 <= k < s.len() && moved_offset(s[k].offset as int, start, end, new_end) == Some(
                    (#[trigger] transformed(s, start, end, new_end)[i]).offset as int,
                ) && s[k].tag == transformed(s, start, end, new_end)[i].tag && s[k].marker
                    == transformed(s, start, end, new_end)[i].marker,
        sorted(s) ==> sorted(transformed(s, start, end, new_end)),
    decreases s.len(),
{
    if s.len() > 0 {
        let t = s.drop_last();
        lemma_transformed(t, start, end, new_end);
        let r = transformed(s, start, end, new_end);
        let rt = transformed(t, start, end, new_end);
        assert forall|i: int| 0 <= i < r.len() implies exists|k: int|
            0 <= k < s.len() && moved_offset(s[k].offset as int, start, end, new_end) == Some(
                (#[trigger] r[i]).offset as int,
            ) && s[k].tag == r[i].tag && s[k].marker == r[i].marker by {
            if i < rt.len() {
                let k = choose|k: int|
                    0 <= k < t.len() && moved_offset(t[k].offset as int, start, end, new_end)
                        == Some(rt[i].offset as int) && t[k].tag == rt[i].tag && t[k].marker
                        == rt[i].marker;
                assert(s[k] == t[k]);
            } else {
                let k = s.len() - 1;
                assert(moved_offset(s[k].offset as int, start, end, new_end) == Some(
                    r[i].offset as int,
                ));
            }
        }
        if sorted(s) {
            assert(sorted(t));
            assert forall|i: int, j: int| 0 <= i <= j < r.len() implies r[i].offset
                <= r[j].offset by {
                if j >= rt.len() && i < rt.len() {
                    let k = choose|k: int|
                        0 <= k < t.len() && moved_offset(t[k].offset as int, start, end, new_end)
                            == Some(rt[i].offset as int) && t[k].tag == rt[i].tag && t[k].marker
                            == rt[i].marker;
                    assert(s[k].offset <= s[s.len() - 1].offset);
                }
            }
        }
    }
}

/// The tags of a text.
#[derive(Clone, Debug)]
pub struct Tags {
    pub entries: Vec<TagEntry>,
}

impl View for Tags {
    type V = Seq<TagEntry>;

    open spec fn view(&self) -> Seq<TagEntry> {
        self.entries@
    }
}

impl Tags {
    /// Whether the tags are in the order of their offsets.
    pub open spec fn wf(&self) -> bool {
        sorted(self@)
    }

    /// No tags.
    pub fn new() -> (r: Self)
        ensures
            r@ == Seq::<TagEntry>::empty(),
            r.wf(),
    {
        Tags { entries: Vec::new() }
    }

    /// The number of tags.
    pub fn len(&self) -> (r: usize)
        ensures
            r == self@.len(),
    {
        self.entries.len()
    }

    /// The index of the first tag at or after `offset`.
    pub fn first_at(&self, offset: usize) -> (r: usize)
        requires
            self.wf(),
        ensures
            r == count_before(self@, offset),
            r <= self@.len(),
    {
        proof {
            lemma_count_before(self@, offset);
        }
        let mut i: usize = 0;
        while i < self.entries.len() && self.entries[i].offset < offset
            invariant
                i <= self.entries.len(),
                i <= count_before(self@, offset) <= self@.len(),
                forall|k: int|
                    0 <= k < count_before(self@, offset) ==> (#[trigger] self@[k]).offset < offset,
                forall|k: int|
                    count_before(self@, offset) <= k < self@.len() ==> (#[trigger] self@[k]).offset
                        >= offset,
            decreases self.entries.len() - i,
        {
            i += 1;
        }
        i
    }

    /// The index just after the last tag at or before `offset`.
    pub fn after_at(&self, offset: usize) -> (r: usize)
        requires
            self.wf(),
        ensures
            r == count_upto(self@, offset),
            r <= self@.len(),
    {
        proof {
            lemma_count_upto(self@, offset);
        }
        let mut i: usize = 0;
        while i < self.entries.len() && self.entries[i].offset <= offset
            invariant
                i <= self.entries.len(),
                i <= count_upto(self@, offset) <= self@.len(),
                forall|k: int|
                    0 <= k < count_upto(self@, offset) ==> (#[trigger] self@[k]).offset <= offset,
                forall|k: int|
                    count_upto(self@, offset) <= k < self@.len() ==> (#[trigger] self@[k]).offset
                        > offset,
            decreases self.entries.len() - i,
        {
            i += 1;
        }
        i
    }

    /// Inserts a tag at `offset`, after the tags that are already at or
    /// before that offset.
    pub fn insert(&mut self, offset: usize, tag: Tag, marker: Marker)
        requires
            old(self).wf(),
        ensures
            final(self)@ == old(self)@.insert(
                count_upto(old(self)@, offset),
                TagEntry { offset, tag, marker },
            ),
            final(self).wf(),
    {
        let k = self.after_at(offset);
        proof {
            lemma_count_upto(self@, offset);
        }
        self.entries.insert(k, TagEntry { offset, tag, marker });
    }

    /// Removes every tag at `offset` that one of `markers` owns.
    pub fn remove_on(&mut self, offset: usize, markers: &Vec<Marker>)
        requires
            old(self).wf(),
        ensures
            final(self)@ == removed_on(old(self)@, offset, markers@),
            final(self).wf(),
    {
        let mut out: Vec<TagEntry> = Vec::new();
        let mut i: usize = 0;
        while i < self.entries.len()
            invariant
                i <= self.entries.len(),
                out@ == removed_on(self@.take(i as int), offset, markers@),
            decreases self.entries.len() - i,
        {
            let e = self.entries[i];
            let owned = e.offset == offset && contains_marker(markers, e.marker);
            proof {
                assert(self@.take(i + 1).drop_last() == self@.take(i as int));
            }
            if !owned {
                out.push(e);
            }
            i += 1;
        }
        proof {
            assert(self@.take(i as int) == self@);
            lemma_removed_on(self@, offset, markers@);
        }
        self.entries = out;
    }

    /// Follows a change of the text in which the bytes of `start..end`
    /// became those of `start..new_end`: drops the tags strictly inside the
    /// old range and shifts those at or after its end.
    pub fn transform_range(&mut self, start: usize, end: usize, new_end: usize)
        requires
            old(self).wf(),
            start <= end,
            start <= new_end,
            forall|i: int|
                0 <= i < old(self)@.len() ==> (#[trigger] old(self)@[i]).offset - end + new_end
                    <= usize::MAX,
        ensures
            final(self)@ == transformed(old(self)@, start as int, end as int, new_end as int),
            final(self).wf(),
    {
        let mut out: Vec<TagEntry> = Vec::new();
        let mut i: usize = 0;
        while i < self.entries.len()
            invariant
                i <= self.entries.len(),
                start <= end,
                start <= new_end,
                forall|i: int|
                    0 <= i < self@.len() ==> (#[trigger] self@[i]).offset - end + new_end
                        <= usize::MAX,
                out@ == transformed(self@.take(i as int), start as int, end as int, new_end as int),
            decreases self.entries.len() - i,
        {
            let e = self.entries[i];
            proof {
                assert(self@.take(i + 1).drop_last() == self@.take(i as int));
                assert(self@[i as int].offset - end + new_end <= usize::MAX);
            }
            if start < e.offset && e.offset < end {
            } else if e.offset >= end && e.offset > start {
                out.push(TagEntry { offset: e.offset - end + new_end, tag: e.tag, marker: e.marker });
            } else {
                out.push(e);
            }
            i += 1;
        }
        proof {
            assert(self@.take(i as int) == self@);
            lemma_transformed(self@, start as int, end as int, new_end as int);
        }
        self.entries = out;
    }

    /// The tags from the first at or after `offset` on, in order.
    pub fn iter_at(&self, offset: usize) -> (r: Vec<TagEntry>)
        requires
            self.wf(),
        ensures
            r@ == self@.skip(count_before(self@, offset)),
    {
        let k = self.first_at(offset);
        let mut out: Vec<TagEntry> = Vec::new();
        let mut i: usize = k;
        while i < self.entries.len()
            invariant
                k <= i <= self.entries.len(),
                out@ == self@.subrange(k as int, i as int),
            decreases self.entries.len() - i,
        {
            out.push(self.entries[i]);
            proof {
                assert(self@.subrange(k as int, i as int + 1) == self@.subrange(
                    k as int,
                    i as int,
                ).push(self@[i as int]));
            }
            i += 1;
        }
        proof {
            assert(self@.subrange(k as int, i as int) == self@.skip(k as int));
        }
        out
    }

    /// The tags before `offset`, from the last to the first.
    pub fn rev_iter_at(&self, offset: usize) -> (r: Vec<TagEntry>)
        requires
            self.wf(),
        ensures
            r@ == self@.take(count_before(self@, offset)).reverse(),
    {
        let k = self.first_at(offset);
        let mut out: Vec<TagEntry> = Vec::new();
        let mut i: usize = k;
        while i > 0
            invariant
                i <= k <= self.entries.len(),
                out@.len() == k - i,
                forall|j: int| 0 <= j < out@.len() ==> out@[j] == self@[k - 1 - j],
            decreases i,
        {
            i -= 1;
            out.push(self.entries[i]);
        }
        proof {
            assert(out@ =~= self@.take(k as int).reverse());
        }
        out
    }
}

/// Whether `m` is one of `markers`.
pub fn contains_marker(markers: &Vec<Marker>, m: Marker) -> (r: bool)
    ensures
        r == markers@.contains(m),
{
    let mut i: usize = 0;
    while i < markers.len()
        invariant
            i <= markers.len(),
            forall|j: int| 0 <= j < i ==> markers@[j] != m,
        decreases markers.len() - i,
    {
        if markers[i] == m {
            return true;
        }
        i += 1;
    }
    false
}

} // verus!
