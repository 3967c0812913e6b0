//! Building a text piece by piece, with the forms and the alignments that
//! are begun ended by themselves.

use crate::buffer::{on_boundary, spec_scalar_len, MAX_LEN};
use crate::parts::{parts_from, tag_items, conceal_after, Item, Part};
use crate::tags::{count_upto, lemma_count_upto, Marker, Tag, TagEntry};
use crate::text::Text;
use vstd::prelude::*;
use vstd::utf8::{encode_utf8, encode_utf8_valid_utf8};

verus! {

/// A piece that aligns what follows to the center.
#[derive(Clone, Copy, Debug, PartialEq, Eq, Structural)]
pub struct AlignCenter;

/// A piece that aligns what follows to the left.
#[derive(Clone, Copy, Debug, PartialEq, Eq, Structural)]
pub struct AlignLeft;

/// A piece that aligns what follows to the right.
#[derive(Clone, Copy, Debug, PartialEq, Eq, Structural)]
pub struct AlignRight;

/// A piece of a text that is built.
#[derive(Clone, Debug)]
pub enum BuilderPart {
    /// A tag.
    Tag(Tag),
    /// Characters.
    ToString(String),
}

impl BuilderPart {
    /// The piece that aligns to the center.
    pub fn from_align_center(_part: AlignCenter) -> (r: Self)
        ensures
            r == BuilderPart::Tag(Tag::StartAlignCenter),
    {
        BuilderPart::Tag(Tag::StartAlignCenter)
    }

    /// The piece that aligns to the left.
    pub fn from_align_left(_part: AlignLeft) -> (r: Self)
        ensures
            r == BuilderPart::Tag(Tag::StartAlignLeft),
    {
        BuilderPart::Tag(Tag::StartAlignLeft)
    }

    /// The piece that aligns to the right.
    pub fn from_align_right(_part: AlignRight) -> (r: Self)
        ensures
            r == BuilderPart::Tag(Tag::StartAlignRight),
    {
        BuilderPart::Tag(Tag::StartAlignRight)
    }
}

/// The tag that pops the form that a tag pushes.
pub open spec fn pop_of(t: Tag) -> Tag {
    match t {
        Tag::PushForm(f) => Tag::PopForm(f),
        _ => t,
    }
}

/// The part that pops the form that a part pushes.
pub open spec fn pop_part_of(p: Part) -> Part {
    match p {
        Part::PushForm(f) => Part::PopForm(f),
        _ => p,
    }
}

/// Whether every form that the tags push is popped by a later tag.
pub open spec fn tags_balanced(tags: Seq<TagEntry>) -> bool {
    forall|i: int|
        0 <= i < tags.len() && (#[trigger] tags[i]).tag is PushForm ==> exists|j: int|
            i < j < tags.len() && (#[trigger] tags[j]).tag == pop_of(tags[i].tag)
}

/// Whether every form that the tags push is popped by a later tag, or is
/// the one that `last` is about to pop.
pub open spec fn tags_pending(tags: Seq<TagEntry>, last: Option<Tag>) -> bool {
    forall|i: int|
        0 <= i < tags.len() && (#[trigger] tags[i]).tag is PushForm ==> last == Some(
            pop_of(tags[i].tag),
        ) || exists|j: int| i < j < tags.len() && (#[trigger] tags[j]).tag == pop_of(tags[i].tag)
}

/// Whether every form that the stream pushes is popped later in the
/// stream.
pub open spec fn stream_balanced(items: Seq<Item>) -> bool {
    forall|i: int|
        0 <= i < items.len() && (#[trigger] items[i]).part is PushForm ==> exists|j: int|
            i < j < items.len() && (#[trigger] items[j]).part == pop_part_of(items[i].part)
}

/// Whether every form that the tags from `k` on pop is popped in the
/// stream.
pub open spec fn pops_covered(items: Seq<Item>, tags: Seq<TagEntry>, k: int) -> bool {
    forall|n: int|
        k <= n < tags.len() && (#[trigger] tags[n]).tag is PopForm ==> exists|j: int|
            0 <= j < items.len() && (#[trigger] items[j]).part == Part::spec_from_raw(tags[n].tag)
}

/// Whether no tag shows a ghost text.
pub open spec fn ghost_free(tags: Seq<TagEntry>) -> bool {
    forall|i: int| 0 <= i < tags.len() ==> !((#[trigger] tags[i]).tag is GhostText)
}

proof fn lemma_stream_from(
    bytes: Seq<u8>,
    tags: Seq<TagEntry>,
    ghosts: Seq<Vec<Part>>,
    b: int,
    ch: int,
    k: int,
    conceal: nat,
)
    requires
        tags_balanced(tags),
        ghost_free(tags),
        0 <= b <= bytes.len(),
        0 <= k <= tags.len(),
        forall|i: int| 0 <= i < tags.len() ==> (#[trigger] tags[i]).offset <= bytes.len(),
    ensures
        stream_balanced(parts_from(bytes, tags, ghosts, bytes.len() as int + 1, b, ch, k, conceal)),
        pops_covered(
            parts_from(bytes, tags, ghosts, bytes.len() as int + 1, b, ch, k, conceal),
            tags,
            k,
        ),
    decreases bytes.len() - b, tags.len() - k,
{
    let limit = bytes.len() as int + 1;
    let s = parts_from(bytes, tags, ghosts, limit, b, ch, k, conceal);
    if k < tags.len() && tags[k].offset <= b {
        let t = tag_items(tags[k], ghosts, b, ch, conceal);
        let r = parts_from(bytes, tags, ghosts, limit, b, ch, k + 1, conceal_after(tags[k].tag, conceal));
        lemma_stream_from(bytes, tags, ghosts, b, ch, k + 1, conceal_after(tags[k].tag, conceal));
        assert(tags[k].offset < limit);
        assert(s == t + r);
        assert(t.len() <= 1);
        assert forall|i: int| 0 <= i < s.len() && (#[trigger] s[i]).part is PushForm implies exists|
            j: int,
        | i < j < s.len() && (#[trigger] s[j]).part == pop_part_of(s[i].part) by {
            if i < t.len() {
                assert(tags[k].tag is PushForm);
                let n = choose|n: int|
                    k < n < tags.len() && (#[trigger] tags[n]).tag == pop_of(tags[k].tag);
                assert(tags[n].tag is PopForm);
                let j = choose|j: int|
                    0 <= j < r.len() && (#[trigger] r[j]).part == Part::spec_from_raw(tags[n].tag);
                assert(s[t.len() + j] == r[j]);
            } else {
                assert(r[i - t.len()] == s[i]);
                let j = choose|j: int|
                    i - t.len() < j < r.len() && (#[trigger] r[j]).part == pop_part_of(
                        r[i - t.len()].part,
                    );
                assert(s[t.len() + j] == r[j]);
            }
        }
        assert forall|n: int| k <= n < tags.len() && (#[trigger] tags[n]).tag is PopForm implies exists|
            j: int,
        | 0 <= j < s.len() && (#[trigger] s[j]).part == Part::spec_from_raw(tags[n].tag) by {
            if n == k {
                assert(s[0].part == Part::spec_from_raw(tags[n].tag));
            } else {
                let j = choose|j: int|
                    0 <= j < r.len() && (#[trigger] r[j]).part == Part::spec_from_raw(tags[n].tag);
                assert(s[t.len() + j] == r[j]);
            }
        }
    } else if b < bytes.len() {
        let w = spec_scalar_len(bytes[b]);
        let next = if b + w <= bytes.len() {
            b + w
        } else {
            bytes.len() as int
        };
        let r = parts_from(bytes, tags, ghosts, limit, next, ch + 1, k, conceal);
        lemma_stream_from(bytes, tags, ghosts, next, ch + 1, k, conceal);
        let d = s.len() - r.len();
        assert(0 <= d <= 1);
        assert forall|i: int| 0 <= i < r.len() implies r[i] == s[i + d] by {}
        assert forall|i: int| 0 <= i < s.len() && (#[trigger] s[i]).part is PushForm implies exists|
            j: int,
        | i < j < s.len() && (#[trigger] s[j]).part == pop_part_of(s[i].part) by {
            assert(i >= d);
            assert(r[i - d] == s[i]);
            let j = choose|j: int|
                i - d < j < r.len() && (#[trigger] r[j]).part == pop_part_of(r[i - d].part);
            assert(s[j + d] == r[j]);
        }
        assert forall|n: int| k <= n < tags.len() && (#[trigger] tags[n]).tag is PopForm implies exists|
            j: int,
        | 0 <= j < s.len() && (#[trigger] s[j]).part == Part::spec_from_raw(tags[n].tag) by {
            let j = choose|j: int|
                0 <= j < r.len() && (#[trigger] r[j]).part == Part::spec_from_raw(tags[n].tag);
            assert(s[j + d] == r[j]);
        }
    } else {
        assert(k == tags.len()) by {
            if k < tags.len() {
                assert(tags[k].offset <= bytes.len());
            }
        }
    }
}

/// Form balance: in the stream of parts of a text whose tags pop every
/// form that they push and show no ghost text, every form that is pushed
/// is popped later in the stream.
pub proof fn lemma_forms_balanced(text: Text)
    requires
        text.wf(),
        tags_balanced(text.tags@),
        ghost_free(text.tags@),
    ensures
        stream_balanced(text.spec_parts(0, text.bytes().len() as int + 1)),
{
    let tags = text.tags@;
    assert forall|i: int| 0 <= i < tags.len() implies (#[trigger] tags[i]).offset
        <= text.bytes().len() by {
        assert(on_boundary(text.bytes(), tags[i].offset as int));
    }
    crate::tags::lemma_count_before(tags, 0);
    lemma_stream_from(
        text.bytes(),
        tags,
        text.ghosts@,
        0,
        crate::buffer::chars_upto(text.bytes(), 0) as int,
        crate::tags::count_before(tags, 0),
        0,
    );
}

/// A text in the making: the text so far, and the tags that will end the
/// form and the alignment that were begun last.
pub struct Builder {
    pub text: Text,
    pub last_form: Option<Tag>,
    pub last_align: Option<Tag>,
    pub marker: Marker,
}

impl Builder {
    /// Whether the text so far is well formed and shows no ghost text, and
    /// every form that it pushes is popped, or about to be.
    pub open spec fn wf(&self) -> bool {
        &&& self.text.wf()
        &&& ghost_free(self.text.tags@)
        &&& tags_pending(self.text.tags@, self.last_form)
        &&& self.last_form matches Some(t) ==> t is PopForm
        &&& self.last_align matches Some(t) ==> t is EndAlignLeft || t is EndAlignCenter
            || t is EndAlignRight
    }

    /// A builder that has built nothing yet.
    pub fn new() -> (r: Self)
        ensures
            r.text.bytes().len() == 0,
            r.text.tags@.len() == 0,
            r.last_form is None,
            r.last_align is None,
            r.wf(),
    {
        proof {
            reveal_strlit("");
            assert(encode_utf8(""@) =~= Seq::<u8>::empty()) by {
                assert(""@.len() == 0);
            }
        }
        let text = Text::new("");
        Builder { text, last_form: None, last_align: None, marker: Marker { id: 1 } }
    }

    /// Puts a tag at the end of the text so far.
    fn tag_at_end(&mut self, tag: Tag)
        requires
            old(self).text.wf(),
            !(tag is GhostText),
        ensures
            final(self).text.bytes() == old(self).text.bytes(),
            final(self).text.tags@ == old(self).text.tags@.push(
                TagEntry {
                    offset: old(self).text.bytes().len() as usize,
                    tag,
                    marker: old(self).marker,
                },
            ),
            final(self).text.wf(),
            final(self).text.ghosts == old(self).text.ghosts,
            final(self).text.marker == old(self).text.marker,
            final(self).last_form == old(self).last_form,
            final(self).last_align == old(self).last_align,
            final(self).marker == old(self).marker,
    {
        let len = self.text.len_bytes();
        proof {
            let tags = self.text.tags@;
            lemma_count_upto(tags, len);
            assert(count_upto(tags, len) == tags.len()) by {
                if count_upto(tags, len) < tags.len() {
                    assert(on_boundary(
                        self.text.bytes(),
                        tags[count_upto(tags, len)].offset as int,
                    ));
                }
            }
        }
        self.text.insert_tag(len, tag, self.marker);
        proof {
            let e = TagEntry { offset: len, tag, marker: self.marker };
            assert(old(self).text.tags@.insert(old(self).text.tags@.len() as int, e) =~= old(self).text.tags@.push(e));
        }
    }

    /// Adds characters at the end of the text so far.
    pub fn push_str(&mut self, s: &str)
        requires
            old(self).wf(),
            old(self).text.bytes().len() + encode_utf8(s@).len() <= MAX_LEN,
        ensures
            final(self).wf(),
            final(self).text.bytes() == old(self).text.bytes() + encode_utf8(s@),
            final(self).text.tags@ == old(self).text.tags@,
            final(self).last_form == old(self).last_form,
            final(self).last_align == old(self).last_align,
            final(self).marker == old(self).marker,
    {
        let len = self.text.len_bytes();
        let ghost tags = self.text.tags@;
        let ghost bytes = self.text.bytes();
        proof {
            encode_utf8_valid_utf8(s@);
        }
        self.text.replace_range(len, len, s.as_bytes());
        proof {
            assert(self.text.bytes() =~= bytes + encode_utf8(s@));
            assert forall|i: int| 0 <= i < tags.len() implies (#[trigger] tags[i]).offset <= len by {
                assert(on_boundary(bytes, tags[i].offset as int));
            }
            lemma_transform_at_end(tags, len as int, encode_utf8(s@).len() as int);
        }
    }

    /// Adds a tag at the end of the text so far. A tag that pushes a form
    /// first pops the form that was pushed last, and a tag that begins an
    /// alignment first ends the one that was begun last.
    pub fn push_tag(&mut self, tag: Tag)
        requires
            old(self).wf(),
            !(tag is GhostText),
        ensures
            final(self).wf(),
            final(self).text.bytes() == old(self).text.bytes(),
            final(self).text.tags@ == old(self).text.tags@ + spec_pushed(
                tag,
                old(self).last_form,
                old(self).last_align,
                old(self).text.bytes().len() as usize,
                old(self).marker,
            ),
            final(self).last_form == match tag {
                Tag::PushForm(id) => Some(Tag::PopForm(id)),
                _ => old(self).last_form,
            },
            final(self).last_align == match tag {
                Tag::StartAlignLeft => Some(Tag::EndAlignLeft),
                Tag::StartAlignCenter => Some(Tag::EndAlignCenter),
                Tag::StartAlignRight => Some(Tag::EndAlignRight),
                _ => old(self).last_align,
            },
            final(self).marker == old(self).marker,
    {
        let ghost tags = self.text.tags@;
        let ghost last = self.last_form;
        let inverted = match tag {
            Tag::PushForm(id) => {
                let old = self.last_form;
                self.last_form = Some(Tag::PopForm(id));
                old
            },
            Tag::StartAlignLeft => {
                let old = self.last_align;
                self.last_align = Some(Tag::EndAlignLeft);
                old
            },
            Tag::StartAlignCenter => {
                let old = self.last_align;
                self.last_align = Some(Tag::EndAlignCenter);
                old
            },
            Tag::StartAlignRight => {
                let old = self.last_align;
                self.last_align = Some(Tag::EndAlignRight);
                old
            },
            _ => None,
        };
        let mut had = false;
        if let Some(t) = inverted {
            if !matches!(t, Tag::GhostText(_)) {
                self.tag_at_end(t);
                had = true;
            }
        }
        let ghost mid = self.text.tags@;
        self.tag_at_end(tag);
        proof {
            let new = self.text.tags@;
            let added = spec_pushed(
                tag,
                last,
                old(self).last_align,
                old(self).text.bytes().len() as usize,
                old(self).marker,
            );
            assert(new =~= tags + added);
            assert forall|i: int| 0 <= i < new.len() implies !((#[trigger] new[i]).tag is GhostText) by {
                if i < tags.len() {
                    assert(new[i] == tags[i]);
                }
            }
            assert forall|i: int|
                0 <= i < new.len() && (#[trigger] new[i]).tag is PushForm implies self.last_form
                == Some(pop_of(new[i].tag)) || exists|j: int|
                i < j < new.len() && (#[trigger] new[j]).tag == pop_of(new[i].tag) by {
                if i < tags.len() {
                    assert(new[i] == tags[i]);
                    if last == Some(pop_of(tags[i].tag)) {
                        if tag is PushForm {
                            assert(new[tags.len() as int].tag == pop_of(tags[i].tag));
                        }
                    } else {
                        let j = choose|j: int|
                            i < j < tags.len() && (#[trigger] tags[j]).tag == pop_of(tags[i].tag);
                        assert(new[j] == tags[j]);
                    }
                } else {
                    assert(new[i] == added[i - tags.len()]);
                }
            }
        }
    }

    /// Adds a piece at the end of the text so far.
    pub fn push_part(&mut self, part: &BuilderPart)
        requires
            old(self).wf(),
            match part {
                BuilderPart::Tag(t) => !(t is GhostText),
                BuilderPart::ToString(s) => old(self).text.bytes().len() + encode_utf8(s@).len()
                    <= MAX_LEN,
            },
        ensures
            final(self).wf(),
            final(self).marker == old(self).marker,
            match part {
                BuilderPart::Tag(t) => final(self).text.bytes() == old(self).text.bytes() && final(self).text.tags@ == old(self).text.tags@ + spec_pushed(
                    *t,
                    old(self).last_form,
                    old(self).last_align,
                    old(self).text.bytes().len() as usize,
                    old(self).marker,
                ),
                BuilderPart::ToString(s) => final(self).text.bytes() == old(self).text.bytes()
                    + encode_utf8(s@) && final(self).text.tags@ == old(self).text.tags@,
            },
    {
        match part {
            BuilderPart::Tag(t) => self.push_tag(*t),
            BuilderPart::ToString(s) => self.push_str(s.as_str()),
        }
    }

    /// The text that was built, with the form and the alignment that were
    /// begun last ended at its end. Every form that its tags push is
    /// popped by a later tag.
    pub fn finish(self) -> (r: Text)
        requires
            self.wf(),
        ensures
            r.wf(),
            r.bytes() == self.text.bytes(),
            r.tags@ == self.text.tags@ + spec_finished(
                self.last_form,
                self.last_align,
                self.text.bytes().len() as usize,
                self.marker,
            ),
            tags_balanced(r.tags@),
            ghost_free(r.tags@),
    {
        let mut b = self;
        let ghost tags = b.text.tags@;
        let ghost last = b.last_form;
        if let Some(t) = b.last_form {
            if !matches!(t, Tag::GhostText(_)) {
                b.tag_at_end(t);
            }
        }
        if let Some(t) = b.last_align {
            if !matches!(t, Tag::GhostText(_)) {
                b.tag_at_end(t);
            }
        }
        proof {
            let new = b.text.tags@;
            assert(new =~= tags + spec_finished(
                self.last_form,
                self.last_align,
                self.text.bytes().len() as usize,
                self.marker,
            ));
            assert forall|i: int| 0 <= i < new.len() implies !((#[trigger] new[i]).tag is GhostText) by {
                if i < tags.len() {
                    assert(new[i] == tags[i]);
                }
            }
            assert forall|i: int|
                0 <= i < new.len() && (#[trigger] new[i]).tag is PushForm implies exists|j: int|
                i < j < new.len() && (#[trigger] new[j]).tag == pop_of(new[i].tag) by {
                if i < tags.len() {
                    assert(new[i] == tags[i]);
                    if last == Some(pop_of(tags[i].tag)) {
                        assert(new[tags.len() as int].tag == pop_of(tags[i].tag));
                    } else {
                        let j = choose|j: int|
                            i < j < tags.len() && (#[trigger] tags[j]).tag == pop_of(tags[i].tag);
                        assert(new[j] == tags[j]);
                    }
                } else {
                    let added = spec_finished(
                        self.last_form,
                        self.last_align,
                        self.text.bytes().len() as usize,
                        self.marker,
                    );
                    assert(new[i] == added[i - tags.len()]);
                }
            }
        }
        b.text
    }
}

/// The tags that the pushing of a tag adds at the offset `at`: the tag
/// that ends the form or the alignment that was begun last, if the tag
/// begins a new one, and then the tag itself.
pub open spec fn spec_pushed(
    tag: Tag,
    last_form: Option<Tag>,
    last_align: Option<Tag>,
    at: usize,
    marker: Marker,
) -> Seq<TagEntry> {
    let inverted = match tag {
        Tag::PushForm(_) => last_form,
        Tag::StartAlignLeft => last_align,
        Tag::StartAlignCenter => last_align,
        Tag::StartAlignRight => last_align,
        _ => None,
    };
    let own = seq![TagEntry { offset: at, tag, marker }];
    match inverted {
        Some(t) => if t is GhostText {
            own
        } else {
            seq![TagEntry { offset: at, tag: t, marker }] + own
        },
        None => own,
    }
}

/// The tags that the finishing of a text adds at the offset `at`: those
/// that end the form and the alignment that were begun last.
pub open spec fn spec_finished(
    last_form: Option<Tag>,
    last_align: Option<Tag>,
    at: usize,
    marker: Marker,
) -> Seq<TagEntry> {
    let form = match last_form {
        Some(t) => if t is GhostText {
            Seq::empty()
        } else {
            seq![TagEntry { offset: at, tag: t, marker }]
        },
        None => Seq::empty(),
    };
    let align = match last_align {
        Some(t) => if t is GhostText {
            Seq::empty()
        } else {
            seq![TagEntry { offset: at, tag: t, marker }]
        },
        None => Seq::empty(),
    };
    form + align
}

/// Text that comes at the end of a text moves no tag that lies before
/// the end.
pub proof fn lemma_transform_at_end(tags: Seq<TagEntry>, len: int, added: int)
    requires
        added >= 0,
        forall|i: int| 0 <= i < tags.len() ==> (#[trigger] tags[i]).offset <= len,
    ensures
        crate::tags::transformed(tags, len, len, len + added) == tags,
    decreases tags.len(),
{
    if tags.len() > 0 {
        let t = tags.drop_last();
        assert forall|i: int| 0 <= i < t.len() implies (#[trigger] t[i]).offset <= len by {
            assert(t[i] == tags[i]);
        }
        lemma_transform_at_end(t, len, added);
        assert(tags[tags.len() - 1].offset <= len);
        let r = crate::tags::transformed(tags, len, len, len + added);
        assert(r =~= tags);
    }
}

/// What the pushing of a text has built so far: the tags, and the tags
/// that will end the form and the alignment that were begun last.
pub struct Pushed {
    pub tags: Seq<TagEntry>,
    pub last_form: Option<Tag>,
    pub last_align: Option<Tag>,
}

/// What the tag `e` of a text that is pushed adds, at the offset `at`: a
/// tag that pushes a form or begins an alignment first ends the one
/// before, with the marker of the builder; a tag that pops the form or
/// ends the alignment that is about to be ended takes that duty over; the
/// tag itself comes with its own marker. A tag that shows a ghost text is
/// left out.
pub open spec fn pushed_one(p: Pushed, e: TagEntry, at: usize, marker: Marker) -> Pushed {
    let own = TagEntry { offset: at, tag: e.tag, marker: e.marker };
    let ends = |t: Option<Tag>|
        match t {
            Some(t) => seq![TagEntry { offset: at, tag: t, marker }],
            None => Seq::<TagEntry>::empty(),
        };
    match e.tag {
        Tag::GhostText(_) => p,
        Tag::PushForm(id) => Pushed {
            tags: p.tags + ends(p.last_form) + seq![own],
            last_form: Some(Tag::PopForm(id)),
            last_align: p.last_align,
        },
        Tag::StartAlignLeft => Pushed {
            tags: p.tags + ends(p.last_align) + seq![own],
            last_form: p.last_form,
            last_align: Some(Tag::EndAlignLeft),
        },
        Tag::StartAlignCenter => Pushed {
            tags: p.tags + ends(p.last_align) + seq![own],
            last_form: p.last_form,
            last_align: Some(Tag::EndAlignCenter),
        },
        Tag::StartAlignRight => Pushed {
            tags: p.tags + ends(p.last_align) + seq![own],
            last_form: p.last_form,
            last_align: Some(Tag::EndAlignRight),
        },
        t => Pushed {
            tags: p.tags.push(own),
            last_form: if p.last_form == Some(t) {
                None
            } else {
                p.last_form
            },
            last_align: if p.last_align == Some(t) {
                None
            } else {
                p.last_align
            },
        },
    }
}

/// What the tags `others` of a text that is pushed add, one after the
/// other, where the text begins at the offset `end`.
pub open spec fn pushed_all(p: Pushed, others: Seq<TagEntry>, end: usize, marker: Marker) -> Pushed
    decreases others.len(),
{
    if others.len() == 0 {
        p
    } else {
        pushed_one(
            pushed_all(p, others.drop_last(), end, marker),
            others.last(),
            (end + others.last().offset) as usize,
            marker,
        )
    }
}

impl Builder {
    /// Puts a tag of the given marker at the offset `at`, which no tag
    /// lies beyond.
    fn tag_after_all(&mut self, at: usize, tag: Tag, marker: Marker)
        requires
            old(self).text.wf(),
            !(tag is GhostText),
            on_boundary(old(self).text.bytes(), at as int),
            forall|i: int|
                0 <= i < old(self).text.tags@.len() ==> (#[trigger] old(self).text.tags@[i]).offset
                    <= at,
        ensures
            final(self).text.bytes() == old(self).text.bytes(),
            final(self).text.tags@ == old(self).text.tags@.push(TagEntry { offset: at, tag, marker }),
            final(self).text.wf(),
            final(self).text.ghosts == old(self).text.ghosts,
            final(self).text.marker == old(self).text.marker,
            final(self).last_form == old(self).last_form,
            final(self).last_align == old(self).last_align,
            final(self).marker == old(self).marker,
    {
        proof {
            let tags = self.text.tags@;
            lemma_count_upto(tags, at);
            assert(count_upto(tags, at) == tags.len()) by {
                if count_upto(tags, at) < tags.len() {
                    assert(tags[count_upto(tags, at)].offset <= at);
                }
            }
        }
        self.text.insert_tag(at, tag, marker);
        proof {
            let e = TagEntry { offset: at, tag, marker };
            assert(old(self).text.tags@.insert(old(self).text.tags@.len() as int, e) =~= old(self).text.tags@.push(e));
        }
    }

    /// Adds a text at the end of the text so far: its characters, and its
    /// tags, in their order. A tag of it that pushes a form or begins an
    /// alignment first ends the one before; a tag of it that pops the
    /// form or ends the alignment that is about to be ended takes that
    /// duty over. The ghost texts of the text are left out.
    pub fn push_text(&mut self, other: &Text)
        requires
            old(self).wf(),
            other.wf(),
            old(self).text.bytes().len() + other.bytes().len() <= MAX_LEN,
        ensures
            final(self).wf(),
            final(self).marker == old(self).marker,
            final(self).text.bytes() == old(self).text.bytes() + other.bytes(),
            (Pushed {
                tags: final(self).text.tags@,
                last_form: final(self).last_form,
                last_align: final(self).last_align,
            }) == pushed_all(
                Pushed {
                    tags: old(self).text.tags@,
                    last_form: old(self).last_form,
                    last_align: old(self).last_align,
                },
                other.tags@,
                old(self).text.bytes().len() as usize,
                old(self).marker,
            ),
    {
        let end = self.text.len_bytes();
        let ghost tags0 = self.text.tags@;
        let ghost bytes0 = self.text.bytes();
        let ghost start = Pushed {
            tags: tags0,
            last_form: self.last_form,
            last_align: self.last_align,
        };
        let olen = other.len_bytes();
        let added = other.bytes_in(0, olen);
        proof {
            assert(added@ =~= other.bytes());
            assert forall|i: int| 0 <= i < tags0.len() implies (#[trigger] tags0[i]).offset <= end by {
                assert(on_boundary(bytes0, tags0[i].offset as int));
            }
            lemma_transform_at_end(tags0, end as int, olen as int);
        }
        self.text.replace_range(end, end, added.as_slice());
        proof {
            assert(self.text.bytes() =~= bytes0 + other.bytes());
        }
        let ghost bytes = self.text.bytes();
        let marker = self.marker;
        let n = other.tags.len();
        let mut k: usize = 0;
        while k < n
            invariant
                k <= n == other.tags@.len(),
                other.wf(),
                self.wf(),
                self.marker == marker,
                marker == old(self).marker,
                end == bytes0.len(),
                bytes == bytes0 + other.bytes(),
                self.text.bytes() == bytes,
                bytes.len() <= MAX_LEN,
                (Pushed {
                    tags: self.text.tags@,
                    last_form: self.last_form,
                    last_align: self.last_align,
                }) == pushed_all(start, other.tags@.take(k as int), end, marker),
                forall|i: int|
                    0 <= i < self.text.tags@.len() ==> (#[trigger] self.text.tags@[i]).offset <= end
                        + if k == 0 {
                        0
                    } else {
                        other.tags@[k - 1].offset as int
                    },
            decreases n - k,
        {
            let e = other.tags.entries[k];
            let ghost before = Pushed {
                tags: self.text.tags@,
                last_form: self.last_form,
                last_align: self.last_align,
            };
            proof {
                assert(other.tags@.take(k + 1).drop_last() == other.tags@.take(k as int));
                assert(on_boundary(other.bytes(), e.offset as int));
                assert(on_boundary(bytes, end + e.offset)) by {
                    if e.offset < other.bytes().len() {
                        assert(bytes[end + e.offset] == other.bytes()[e.offset as int]);
                    }
                }
                if k > 0 {
                    assert(other.tags@[k - 1].offset <= other.tags@[k as int].offset);
                }
            }
            let at = end + e.offset;
            match e.tag {
                Tag::GhostText(_) => {},
                Tag::PushForm(id) => {
                    if let Some(t) = self.last_form {
                        self.tag_after_all(at, t, marker);
                    }
                    self.last_form = Some(Tag::PopForm(id));
                    self.tag_after_all(at, e.tag, e.marker);
                },
                Tag::StartAlignLeft => {
                    if let Some(t) = self.last_align {
                        self.tag_after_all(at, t, marker);
                    }
                    self.last_align = Some(Tag::EndAlignLeft);
                    self.tag_after_all(at, e.tag, e.marker);
                },
                Tag::StartAlignCenter => {
                    if let Some(t) = self.last_align {
                        self.tag_after_all(at, t, marker);
                    }
                    self.last_align = Some(Tag::EndAlignCenter);
                    self.tag_after_all(at, e.tag, e.marker);
                },
                Tag::StartAlignRight => {
                    if let Some(t) = self.last_align {
                        self.tag_after_all(at, t, marker);
                    }
                    self.last_align = Some(Tag::EndAlignRight);
                    self.tag_after_all(at, e.tag, e.marker);
                },
                t => {
                    if let Some(l) = self.last_form {
                        if l == t {
                            self.last_form = None;
                        }
                    }
                    if let Some(l) = self.last_align {
                        if l == t {
                            self.last_align = None;
                        }
                    }
                    self.tag_after_all(at, t, e.marker);
                },
            }
            proof {
                let after = pushed_one(before, e, at, marker);
                assert(self.text.tags@ =~= after.tags);
                lemma_pushed_pending(before, e, at, marker);
                let new = self.text.tags@;
                assert forall|i: int| 0 <= i < new.len() implies (#[trigger] new[i]).offset <= end
                    + e.offset by {
                    if i < before.tags.len() {
                        assert(new[i] == before.tags[i]);
                    }
                }
            }
            k += 1;
        }
        proof {
            assert(other.tags@.take(n as int) == other.tags@);
        }
    }
}

/// The pushing of a tag keeps what a builder needs: no tag shows a ghost
/// text, every form that is pushed is popped or about to be, and the tags
/// that are about to end something are of the kind that ends it.
pub proof fn lemma_pushed_pending(p: Pushed, e: TagEntry, at: usize, marker: Marker)
    requires
        ghost_free(p.tags),
        tags_pending(p.tags, p.last_form),
        p.last_form matches Some(t) ==> t is PopForm,
        p.last_align matches Some(t) ==> t is EndAlignLeft || t is EndAlignCenter || t is EndAlignRight,
    ensures
        ghost_free(pushed_one(p, e, at, marker).tags),
        tags_pending(pushed_one(p, e, at, marker).tags, pushed_one(p, e, at, marker).last_form),
        pushed_one(p, e, at, marker).last_form matches Some(t) ==> t is PopForm,
        pushed_one(p, e, at, marker).last_align matches Some(t) ==> t is EndAlignLeft || t
            is EndAlignCenter || t is EndAlignRight,
{
    let q = pushed_one(p, e, at, marker);
    let old = p.tags;
    let new = q.tags;
    assert forall|i: int| 0 <= i < new.len() implies !((#[trigger] new[i]).tag is GhostText) by {
        if i < old.len() {
            assert(new[i] == old[i]);
        }
    }
    assert forall|i: int| 0 <= i < new.len() && (#[trigger] new[i]).tag is PushForm implies q.last_form
        == Some(pop_of(new[i].tag)) || exists|j: int|
        i < j < new.len() && (#[trigger] new[j]).tag == pop_of(new[i].tag) by {
        if i < old.len() {
            assert(new[i] == old[i]);
            if p.last_form == Some(pop_of(old[i].tag)) {
                if e.tag is PushForm {
                    assert(new[old.len() as int].tag == pop_of(old[i].tag));
                } else if e.tag == pop_of(old[i].tag) {
                    assert(new[old.len() as int].tag == pop_of(old[i].tag));
                }
            } else {
                let j = choose|j: int| i < j < old.len() && (#[trigger] old[j]).tag == pop_of(old[i].tag);
                assert(new[j] == old[j]);
            }
        }
    }
}

} // verus!
